//! The settings of the visual modules, and the palette field inside each
//! module's configuration: a theme owns the palettes, so they are put into
//! a configuration, read from it and stripped before the settings are saved.
use crate::search::{first_index, lemma_first_index_at, lemma_first_index_facts, lemma_first_index_none};
use crate::text::{str_eq_chars, string_from_chars};
use vstd::prelude::*;

verus! {

/// The visual modules.
#[derive(Debug, Clone, Copy, PartialEq, Eq, Structural, Hash)]
pub enum VisualKind {
    Loudness,
    Oscilloscope,
    Waveform,
    Spectrogram,
    Spectrum,
    Stereometer,
}

/// A module's configuration as JSON: an object, with each field's name and
/// the JSON text of its value, or any other value, as its JSON text.
#[derive(Debug, Clone, PartialEq, Eq)]
pub enum ConfigValue {
    Object(Vec<(String, String)>),
    Other(String),
}

/// The name of the palette field.
pub open spec fn palette_key() -> Seq<char> {
    seq!['p', 'a', 'l', 'e', 't', 't', 'e']
}

/// The fields of an object as texts.
pub open spec fn fields_text(f: Seq<(String, String)>) -> Seq<(Seq<char>, Seq<char>)> {
    f.map_values(|e: (String, String)| (e.0@, e.1@))
}

/// The palette field.
pub open spec fn is_palette() -> spec_fn((Seq<char>, Seq<char>)) -> bool {
    |e: (Seq<char>, Seq<char>)| e.0 == palette_key()
}

/// The fields with the palette set to `v`: an existing palette field takes
/// the new value, else the field is added.
pub open spec fn with_palette(f: Seq<(Seq<char>, Seq<char>)>, v: Seq<char>) -> Seq<(Seq<char>, Seq<char>)> {
    match first_index(f, is_palette()) {
        Some(i) => f.update(i, (palette_key(), v)),
        None => f.push((palette_key(), v)),
    }
}

/// The fields without any palette field.
pub open spec fn without_palette(f: Seq<(Seq<char>, Seq<char>)>) -> Seq<(Seq<char>, Seq<char>)> {
    f.filter(|e: (Seq<char>, Seq<char>)| e.0 != palette_key())
}

/// The value of the palette field, if there is one.
pub open spec fn palette_of(f: Seq<(Seq<char>, Seq<char>)>) -> Option<Seq<char>> {
    match first_index(f, is_palette()) {
        Some(i) => Some(f[i].1),
        None => None,
    }
}

/// A palette put into a configuration object reads back as the value put
/// in, and once the palette is stripped none reads back.
pub proof fn law_palette_reads_back(f: Seq<(Seq<char>, Seq<char>)>, v: Seq<char>)
    ensures
        palette_of(with_palette(f, v)) == Some(v),
        palette_of(without_palette(f)) is None,
{
    lemma_first_index_facts(f, is_palette());
    let g = with_palette(f, v);
    match first_index(f, is_palette()) {
        Some(i) => {
            assert forall|j: int| 0 <= j < i implies !is_palette()(#[trigger] g[j]) by {
                assert(g[j] == f[j]);
            }
            lemma_first_index_at(g, is_palette(), i);
        },
        None => {
            assert forall|j: int| 0 <= j < f.len() implies !is_palette()(#[trigger] g[j]) by {
                assert(g[j] == f[j]);
            }
            lemma_first_index_at(g, is_palette(), f.len() as int);
        },
    }
    let keep = |e: (Seq<char>, Seq<char>)| e.0 != palette_key();
    let h = without_palette(f);
    assert forall|j: int| 0 <= j < h.len() implies !is_palette()(#[trigger] h[j]) by {
        f.lemma_filter_pred(keep, j);
    }
    lemma_first_index_none(h, is_palette());
}

/// The settings of one visual module: whether it is enabled, and its
/// configuration, if one was saved.
#[derive(Debug, Clone, PartialEq, Eq, Default)]
pub struct ModuleSettings {
    pub enabled: Option<bool>,
    pub config: Option<ConfigValue>,
}

fn palette_name() -> (r: String)
    ensures
        r@ == palette_key(),
{
    let k = ['p', 'a', 'l', 'e', 't', 't', 'e'];
    proof {
        assert(k@ =~= palette_key());
    }
    string_from_chars(k.as_slice())
}

fn palette_chars() -> (r: [char; 7])
    ensures
        r@ == palette_key(),
{
    let k = ['p', 'a', 'l', 'e', 't', 't', 'e'];
    proof {
        assert(k@ =~= palette_key());
    }
    k
}

/// The place of the palette field among `fields`.
fn find_palette(fields: &Vec<(String, String)>) -> (r: Option<usize>)
    ensures
        match r {
            Some(i) => i < fields@.len() && first_index(fields_text(fields@), is_palette()) == Some(
                i as int,
            ),
            None => first_index(fields_text(fields@), is_palette()) is None,
        },
{
    let key = palette_chars();
    let ghost t = fields_text(fields@);
    let mut i: usize = 0;
    while i < fields.len()
        invariant
            i <= fields@.len(),
            t == fields_text(fields@),
            key@ == palette_key(),
            forall|j: int| 0 <= j < i ==> !is_palette()(#[trigger] t[j]),
        decreases fields@.len() - i,
    {
        if str_eq_chars(fields[i].0.as_str(), key.as_slice()) {
            proof {
                lemma_first_index_at(t, is_palette(), i as int);
            }
            return Some(i);
        }
        i += 1;
    }
    proof {
        lemma_first_index_none(t, is_palette());
    }
    None
}

/// `fields` with the palette set to `palette`, or without a palette.
fn set_palette(fields: &mut Vec<(String, String)>, palette: Option<String>)
    ensures
        match palette {
            Some(v) => fields_text(final(fields)@) == with_palette(fields_text(old(fields)@), v@),
            None => fields_text(final(fields)@) == without_palette(fields_text(old(fields)@)),
        },
{
    match palette {
        Some(v) => {
            let ghost before = fields@;
            let ghost vv = v@;
            let entry = (palette_name(), v);
            match find_palette(fields) {
                Some(i) => {
                    fields.set(i, entry);
                    proof {
                        assert(fields_text(fields@) =~= fields_text(before).update(
                            i as int,
                            (palette_key(), vv),
                        ));
                    }
                },
                None => {
                    fields.push(entry);
                    proof {
                        assert(fields_text(fields@) =~= fields_text(before).push((palette_key(), vv)));
                    }
                },
            }
        },
        None => remove_palette(fields),
    }
}

/// `fields` without any palette field.
fn remove_palette(fields: &mut Vec<(String, String)>)
    ensures
        fields_text(final(fields)@) == without_palette(fields_text(old(fields)@)),
{
    let key = palette_chars();
    let ghost t = fields_text(fields@);
    let ghost keep = |e: (Seq<char>, Seq<char>)| e.0 != palette_key();
    let mut rest = Vec::new();
    std::mem::swap(&mut rest, fields);
    let n = rest.len();
    let mut k: usize = 0;
    while k < n
        invariant
            n == t.len(),
            k <= n,
            key@ == palette_key(),
            rest@.len() == n - k,
            fields_text(rest@) == t.skip(k as int),
            keep == (|e: (Seq<char>, Seq<char>)| e.0 != palette_key()),
            fields_text(fields@) == t.take(k as int).filter(keep),
        decreases n - k,
    {
        let ghost tail = rest@;
        let e = rest.remove(0);
        let ghost before = fields@;
        proof {
            assert(tail[0] == e);
            assert(fields_text(rest@) =~= fields_text(tail).drop_first());
            assert((e.0@, e.1@) == t[k as int]) by {
                assert(fields_text(tail)[0] == (e.0@, e.1@));
                assert(t.skip(k as int)[0] == t[k as int]);
            }
            assert(t.take(k + 1).drop_last() =~= t.take(k as int));
            reveal_with_fuel(Seq::filter, 1);
        }
        if !str_eq_chars(e.0.as_str(), key.as_slice()) {
            fields.push(e);
            proof {
                assert(keep(t[k as int]));
                assert(fields_text(fields@) =~= fields_text(before).push(t[k as int]));
            }
        } else {
            proof {
                assert(!keep(t[k as int]));
            }
        }
        proof {
            assert(t.skip(k + 1) =~= t.skip(k as int).drop_first());
        }
        k += 1;
    }
    proof {
        assert(t.take(n as int) =~= t);
    }
}

impl ModuleSettings {
    /// Puts `palette` (the JSON text of the theme's palette, or none) into
    /// the configuration without touching its other fields.  A module
    /// without a configuration gets an empty object first; a configuration
    /// that is not an object stays as it is.
    pub fn override_palette(&mut self, palette: Option<String>)
        ensures
            final(self).enabled == old(self).enabled,
            match old(self).config {
                Some(ConfigValue::Other(t)) => final(self).config == Some(ConfigValue::Other(t)),
                Some(ConfigValue::Object(f)) => final(self).config matches Some(ConfigValue::Object(g))
                    && fields_text(g@) == match palette {
                    Some(v) => with_palette(fields_text(f@), v@),
                    None => without_palette(fields_text(f@)),
                },
                None => final(self).config matches Some(ConfigValue::Object(g)) && fields_text(g@)
                    == match palette {
                    Some(v) => seq![(palette_key(), v@)],
                    None => Seq::<(Seq<char>, Seq<char>)>::empty(),
                },
            },
    {
        let config = self.config.take();
        let fields = match config {
            Some(ConfigValue::Other(t)) => {
                self.config = Some(ConfigValue::Other(t));
                return;
            },
            Some(ConfigValue::Object(f)) => f,
            None => Vec::new(),
        };
        let mut fields = fields;
        let ghost before = fields@;
        set_palette(&mut fields, palette);
        proof {
            if before.len() == 0 {
                assert(fields_text(before) =~= Seq::<(Seq<char>, Seq<char>)>::empty());
                reveal_with_fuel(Seq::filter, 1);
            }
        }
        self.config = Some(ConfigValue::Object(fields));
    }

    /// The JSON text of the palette field of the configuration, when the
    /// configuration is an object that has one.
    pub fn extract_palette(&self) -> (r: Option<String>)
        ensures
            match self.config {
                Some(ConfigValue::Object(f)) => match r {
                    Some(v) => palette_of(fields_text(f@)) == Some(v@),
                    None => palette_of(fields_text(f@)) is None,
                },
                _ => r is None,
            },
    {
        match &self.config {
            Some(ConfigValue::Object(fields)) => match find_palette(fields) {
                Some(i) => {
                    let v = fields[i].1.clone();
                    proof {
                        assert(fields_text(fields@)[i as int] == (fields@[i as int].0@, fields@[i as int].1@));
                    }
                    Some(v)
                },
                None => None,
            },
            _ => None,
        }
    }

    /// Removes the palette field from the configuration, when it is an
    /// object.
    pub fn strip_palette(&mut self)
        ensures
            final(self).enabled == old(self).enabled,
            match old(self).config {
                Some(ConfigValue::Object(f)) => final(self).config matches Some(ConfigValue::Object(g))
                    && fields_text(g@) == without_palette(fields_text(f@)),
                c => final(self).config == c,
            },
    {
        match &mut self.config {
            Some(ConfigValue::Object(fields)) => remove_palette(fields),
            _ => {},
        }
    }
}

/// The settings of all visual modules, and the order they are shown in.
#[derive(Debug, Clone, PartialEq, Eq, Default)]
pub struct VisualSettings {
    pub modules: Vec<(VisualKind, ModuleSettings)>,
    pub order: Vec<VisualKind>,
}

/// `after` is `before` with the palette stripped from the module's
/// configuration.
pub open spec fn palette_stripped(before: ModuleSettings, after: ModuleSettings) -> bool {
    &&& after.enabled == before.enabled
    &&& match before.config {
        Some(ConfigValue::Object(f)) => after.config matches Some(ConfigValue::Object(g)) && fields_text(
            g@,
        ) == without_palette(fields_text(f@)),
        c => after.config == c,
    }
}

impl VisualSettings {
    /// Strips the palette from every module's configuration: the theme owns
    /// the palettes, not the settings file.
    pub fn strip_all_palettes(&mut self)
        ensures
            final(self).order == old(self).order,
            final(self).modules@.len() == old(self).modules@.len(),
            forall|i: int|
                0 <= i < old(self).modules@.len() ==> (#[trigger] final(self).modules@[i]).0 == old(
                    self,
                ).modules@[i].0 && palette_stripped(old(self).modules@[i].1, final(self).modules@[i].1),
    {
        let ghost all = self.modules@;
        let mut rest = Vec::new();
        std::mem::swap(&mut rest, &mut self.modules);
        let n = rest.len();
        let mut out: Vec<(VisualKind, ModuleSettings)> = Vec::new();
        let mut k: usize = 0;
        while k < n
            invariant
                n == all.len(),
                k <= n,
                rest@ == all.skip(k as int),
                out@.len() == k,
                forall|i: int|
                    0 <= i < k ==> (#[trigger] out@[i]).0 == all[i].0 && palette_stripped(
                        all[i].1,
                        out@[i].1,
                    ),
            decreases n - k,
        {
            let ghost tail = rest@;
            let (kind, module) = rest.remove(0);
            proof {
                assert(tail[0] == all[k as int]);
                assert(rest@ =~= all.skip(k + 1));
            }
            let mut module = module;
            module.strip_palette();
            out.push((kind, module));
            k += 1;
        }
        self.modules = out;
    }
}

} // verus!
