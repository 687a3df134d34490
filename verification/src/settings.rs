//! Persisted settings: window and bar geometry, frame rates, meter units
//! and the naming of user themes.
use crate::order::{codes, in_rank_order, lemma_lex_irreflexive, lemma_lex_transitive, lex_less};
use crate::order::{lemma_sorted_by_rank_items, lemma_sorted_by_rank_ordered, sort_by_rank, Ranked};
use crate::text::{chars_of, decimal, push_chars, string_from_chars, u64_to_text};
use vstd::prelude::*;

verus! {

/// The lowest bar height.
pub const BAR_MIN_HEIGHT: u32 = 24;

/// The highest bar height.
pub const BAR_MAX_HEIGHT: u32 = 800;

/// The bar height of a fresh configuration.
pub const BAR_DEFAULT_HEIGHT: u32 = 180;

/// The main window width of a fresh configuration.
pub const MAIN_WINDOW_DEFAULT_WIDTH: u32 = 420;

/// The main window height of a fresh configuration.
pub const MAIN_WINDOW_DEFAULT_HEIGHT: u32 = 520;

/// `height` moved into the allowed range of bar heights.
pub open spec fn clamped_bar_height(height: u32) -> u32 {
    if height < BAR_MIN_HEIGHT {
        BAR_MIN_HEIGHT
    } else if height > BAR_MAX_HEIGHT {
        BAR_MAX_HEIGHT
    } else {
        height
    }
}

/// A bar height within the allowed range.
pub fn clamp_bar_height(height: u32) -> (r: u32)
    ensures
        r == clamped_bar_height(height),
{
    if height < BAR_MIN_HEIGHT {
        BAR_MIN_HEIGHT
    } else if height > BAR_MAX_HEIGHT {
        BAR_MAX_HEIGHT
    } else {
        height
    }
}

/// Which screen edge the bar sits on.
#[derive(Debug, Clone, Copy, PartialEq, Eq, Structural, Default)]
pub enum BarAlignment {
    #[default]
    Top,
    Bottom,
}

impl BarAlignment {
    /// The label shown for the alignment.
    pub fn label(self) -> (r: &'static str)
        ensures
            r@ == match self {
                BarAlignment::Top => seq!['T', 'o', 'p'],
                BarAlignment::Bottom => seq!['B', 'o', 't', 't', 'o', 'm'],
            },
    {
        proof {
            reveal_strlit("Top");
            reveal_strlit("Bottom");
        }
        match self {
            BarAlignment::Top => "Top",
            BarAlignment::Bottom => "Bottom",
        }
    }
}

/// The bar mode's settings.
#[derive(Debug, Clone, PartialEq, Eq)]
pub struct BarSettings {
    pub enabled: bool,
    pub alignment: BarAlignment,
    pub height: u32,
    pub monitor: Option<String>,
}

impl Default for BarSettings {
    /// A disabled bar at the top, of the default height, on no particular
    /// monitor.
    fn default() -> (r: BarSettings)
        ensures
            !r.enabled,
            r.alignment == BarAlignment::Top,
            r.height == BAR_DEFAULT_HEIGHT,
            r.monitor is None,
    {
        BarSettings {
            enabled: false,
            alignment: BarAlignment::Top,
            height: BAR_DEFAULT_HEIGHT,
            monitor: None,
        }
    }
}

/// The main window's size.
#[derive(Debug, Clone, Copy, PartialEq, Eq, Structural)]
pub struct MainWindowSettings {
    pub width: u32,
    pub height: u32,
}

impl Default for MainWindowSettings {
    /// The default main window size.
    fn default() -> (r: MainWindowSettings)
        ensures
            r.width == MAIN_WINDOW_DEFAULT_WIDTH,
            r.height == MAIN_WINDOW_DEFAULT_HEIGHT,
    {
        MainWindowSettings { width: MAIN_WINDOW_DEFAULT_WIDTH, height: MAIN_WINDOW_DEFAULT_HEIGHT }
    }
}

/// The size of a visual's own window, and whether it is popped out.
#[derive(Debug, Clone, Copy, PartialEq, Eq, Structural)]
pub struct PopoutWindowSettings {
    pub width: u32,
    pub height: u32,
    pub popped_out: bool,
}

impl Default for PopoutWindowSettings {
    /// A popped-out window of no recorded size.
    fn default() -> (r: PopoutWindowSettings)
        ensures
            r.width == 0,
            r.height == 0,
            r.popped_out,
    {
        PopoutWindowSettings { width: 0, height: 0, popped_out: true }
    }
}

/// How often visuals redraw.
#[derive(Debug, Clone, Copy, PartialEq, Eq, Structural, Default)]
pub enum VisualFrameRate {
    Fps30,
    #[default]
    Fps60,
    Fps120,
    Display,
}

/// The frames per second of a fixed rate.
pub open spec fn frame_rate_fps(rate: VisualFrameRate) -> Option<u64> {
    match rate {
        VisualFrameRate::Fps30 => Some(30),
        VisualFrameRate::Fps60 => Some(60),
        VisualFrameRate::Fps120 => Some(120),
        VisualFrameRate::Display => None,
    }
}

impl VisualFrameRate {
    /// The time between frames of a fixed rate, in nanoseconds rounded up;
    /// none when the display sets the pace.
    pub fn interval(self) -> (r: Option<u64>)
        ensures
            r == match frame_rate_fps(self) {
                Some(fps) => Some(((1_000_000_000 + fps - 1) / (fps as int)) as u64),
                None => None,
            },
    {
        let fps: u64 = match self {
            VisualFrameRate::Fps30 => 30,
            VisualFrameRate::Fps60 => 60,
            VisualFrameRate::Fps120 => 120,
            VisualFrameRate::Display => {
                return None;
            },
        };
        Some((1_000_000_000 + fps - 1) / fps)
    }

    /// The label shown for the rate.
    pub fn label(self) -> (r: &'static str)
        ensures
            r@ == match self {
                VisualFrameRate::Fps30 => seq!['3', '0', ' ', 'F', 'P', 'S'],
                VisualFrameRate::Fps60 => seq!['6', '0', ' ', 'F', 'P', 'S'],
                VisualFrameRate::Fps120 => seq!['1', '2', '0', ' ', 'F', 'P', 'S'],
                VisualFrameRate::Display => seq![
                    'M', 'a', 't', 'c', 'h', ' ', 'm', 'a', 'i', 'n', ' ', 'd', 'i', 's', 'p', 'l', 'a',
                    'y',
                ],
            },
    {
        proof {
            reveal_strlit("30 FPS");
            reveal_strlit("60 FPS");
            reveal_strlit("120 FPS");
            reveal_strlit("Match main display");
        }
        match self {
            VisualFrameRate::Fps30 => "30 FPS",
            VisualFrameRate::Fps60 => "60 FPS",
            VisualFrameRate::Fps120 => "120 FPS",
            VisualFrameRate::Display => "Match main display",
        }
    }
}

/// What a level meter measures.
#[derive(Debug, Clone, Copy, PartialEq, Eq, Structural, Default)]
pub enum MeterMode {
    #[default]
    LufsShortTerm,
    LufsMomentary,
    RmsFast,
    RmsSlow,
    TruePeak,
}

impl MeterMode {
    /// The unit of the meter's readings: LUFS for loudness, dB otherwise.
    pub fn unit_label(self) -> (r: &'static str)
        ensures
            r@ == match self {
                MeterMode::LufsShortTerm | MeterMode::LufsMomentary => seq!['L', 'U', 'F', 'S'],
                _ => seq!['d', 'B'],
            },
    {
        proof {
            reveal_strlit("LUFS");
            reveal_strlit("dB");
        }
        match self {
            MeterMode::LufsShortTerm | MeterMode::LufsMomentary => "LUFS",
            MeterMode::RmsFast | MeterMode::RmsSlow | MeterMode::TruePeak => "dB",
        }
    }

    /// The label shown for the mode.
    pub fn label(self) -> (r: &'static str)
        ensures
            r@ == match self {
                MeterMode::LufsShortTerm => seq![
                    'L', 'U', 'F', 'S', ' ', 'S', 'h', 'o', 'r', 't', '-', 't', 'e', 'r', 'm',
                ],
                MeterMode::LufsMomentary => seq![
                    'L', 'U', 'F', 'S', ' ', 'M', 'o', 'm', 'e', 'n', 't', 'a', 'r', 'y',
                ],
                MeterMode::RmsFast => seq!['R', 'M', 'S', ' ', 'F', 'a', 's', 't'],
                MeterMode::RmsSlow => seq!['R', 'M', 'S', ' ', 'S', 'l', 'o', 'w'],
                MeterMode::TruePeak => seq!['T', 'r', 'u', 'e', ' ', 'P', 'e', 'a', 'k'],
            },
    {
        proof {
            reveal_strlit("LUFS Short-term");
            reveal_strlit("LUFS Momentary");
            reveal_strlit("RMS Fast");
            reveal_strlit("RMS Slow");
            reveal_strlit("True Peak");
        }
        match self {
            MeterMode::LufsShortTerm => "LUFS Short-term",
            MeterMode::LufsMomentary => "LUFS Momentary",
            MeterMode::RmsFast => "RMS Fast",
            MeterMode::RmsSlow => "RMS Slow",
            MeterMode::TruePeak => "True Peak",
        }
    }
}

/// How a spectrum spaces its frequency axis.
#[derive(Debug, Clone, Copy, PartialEq, Eq, Structural, Default)]
pub enum FrequencyScale {
    Linear,
    #[default]
    Logarithmic,
    Mel,
}

impl FrequencyScale {
    /// The name shown for the scale.
    pub fn label(self) -> (r: &'static str)
        ensures
            r@ == match self {
                FrequencyScale::Linear => seq!['L', 'i', 'n', 'e', 'a', 'r'],
                FrequencyScale::Logarithmic => seq![
                    'L', 'o', 'g', 'a', 'r', 'i', 't', 'h', 'm', 'i', 'c',
                ],
                FrequencyScale::Mel => seq!['M', 'e', 'l'],
            },
    {
        proof {
            reveal_strlit("Linear");
            reveal_strlit("Logarithmic");
            reveal_strlit("Mel");
        }
        match self {
            FrequencyScale::Linear => "Linear",
            FrequencyScale::Logarithmic => "Logarithmic",
            FrequencyScale::Mel => "Mel",
        }
    }
}

/// Who asked for a settings change.
#[derive(Debug, Clone, Copy, PartialEq, Eq, Structural)]
pub enum ChangeOrigin {
    User,
    Automatic,
}

/// The persist flag after a change from `origin`: it turns on at a user's
/// change and stays on.
pub open spec fn persist_step(can_persist: bool, origin: ChangeOrigin) -> bool {
    can_persist || origin == ChangeOrigin::User
}

/// Whether settings may be written after a change: once the user changed
/// anything, and not before, so that automatic updates never replace a
/// file that failed to load.
pub fn persist_allowed(can_persist: bool, origin: ChangeOrigin) -> (r: bool)
    ensures
        r == persist_step(can_persist, origin),
{
    can_persist || origin == ChangeOrigin::User
}

/// The name of the built-in theme.
pub open spec fn builtin_theme() -> Seq<char> {
    seq!['d', 'e', 'f', 'a', 'u', 'l', 't']
}

/// Whether the theme named `name` may be written: every theme but the
/// built-in one, which is read-only.
pub fn theme_writable(name: &str) -> (r: bool)
    ensures
        r == (name@ != builtin_theme()),
{
    let builtin = ['d', 'e', 'f', 'a', 'u', 'l', 't'];
    assert(builtin@ =~= builtin_theme());
    !crate::text::str_eq_chars(name, builtin.as_slice())
}

/// How a change to the active theme is written.
#[derive(Debug, Clone, Copy, PartialEq, Eq, Structural)]
pub enum ThemeWrite {
    /// The active theme's own file is updated.
    InPlace,
    /// The built-in theme stays as it is; the change goes into a copy
    /// under a new automatic name, which becomes the active theme.
    NewCopy,
}

/// How a change to the active theme `active` is written: a user theme in
/// place, the read-only built-in theme as a new copy.
pub fn theme_write(active: &str) -> (r: ThemeWrite)
    ensures
        r == (if active@ == builtin_theme() {
            ThemeWrite::NewCopy
        } else {
            ThemeWrite::InPlace
        }),
{
    if theme_writable(active) {
        ThemeWrite::InPlace
    } else {
        ThemeWrite::NewCopy
    }
}

/// How reading the settings file went.
#[derive(Debug, Clone, Copy, PartialEq, Eq, Structural)]
pub enum LoadOutcome {
    /// The file was read and parsed.
    Loaded,
    /// There is no settings file yet.
    Missing,
    /// The file exists but could not be read or parsed.
    Failed,
}

/// Whether settings may be written before the user changes anything: after
/// a good load or when there is no file, but never over a file that failed
/// to load.
pub fn initial_persist(outcome: LoadOutcome) -> (r: bool)
    ensures
        r == !(outcome is Failed),
{
    match outcome {
        LoadOutcome::Failed => false,
        _ => true,
    }
}

/// The characters that a theme name may not hold: path separators and NUL.
pub open spec fn theme_name_char(c: char) -> bool {
    c != '/' && c != '\\' && c != '\0'
}

/// A theme name without path separators and NUL characters.
pub open spec fn canonical_theme_spec(name: Seq<char>) -> Seq<char> {
    name.filter(|c: char| theme_name_char(c))
}

/// The theme name as its file is named: without path separators and NUL
/// characters.
pub fn canonical_theme_name(name: &str) -> (r: String)
    ensures
        r@ == canonical_theme_spec(name@),
{
    let chars = chars_of(name);
    let ghost pred = |c: char| theme_name_char(c);
    let mut out: Vec<char> = Vec::new();
    let mut i: usize = 0;
    while i < chars.len()
        invariant
            i <= chars@.len(),
            chars@ == name@,
            pred == (|c: char| theme_name_char(c)),
            out@ == chars@.take(i as int).filter(pred),
        decreases chars@.len() - i,
    {
        let c = chars[i];
        proof {
            assert(chars@.take(i + 1).drop_last() =~= chars@.take(i as int));
            reveal_with_fuel(Seq::filter, 1);
        }
        if c != '/' && c != '\\' && c != '\0' {
            out.push(c);
        }
        i += 1;
    }
    proof {
        assert(chars@.take(chars@.len() as int) =~= chars@);
    }
    string_from_chars(out.as_slice())
}

/// `part` appended to the directory path `base`, with a separator unless
/// `base` is empty or ends with one.
pub open spec fn join_path_spec(base: Seq<char>, part: Seq<char>) -> Seq<char> {
    if base.len() == 0 || base.last() == '/' {
        base + part
    } else {
        base + seq!['/'] + part
    }
}

fn join_path(base: &str, part: &[char]) -> (r: String)
    ensures
        r@ == join_path_spec(base@, part@),
{
    let b = chars_of(base);
    let mut out: Vec<char> = Vec::new();
    push_chars(&mut out, b.as_slice());
    if !(b.len() == 0 || b[b.len() - 1] == '/') {
        out.push('/');
    }
    push_chars(&mut out, part);
    proof {
        if !(b@.len() == 0 || b@.last() == '/') {
            assert(out@ =~= b@ + seq!['/'] + part@);
        } else {
            assert(out@ =~= b@ + part@);
        }
    }
    string_from_chars(out.as_slice())
}

/// The directory of user themes within the configuration directory.
pub open spec fn themes_dir() -> Seq<char> {
    seq!['t', 'h', 'e', 'm', 'e', 's']
}

/// A theme offered for selection.
#[derive(Debug, Clone, PartialEq, Eq)]
pub struct ThemeChoice {
    pub name: String,
    pub builtin: bool,
}

impl ThemeChoice {
    /// How the choice is shown: built-in themes say so.
    pub fn display_text(&self) -> (r: String)
        ensures
            r@ == if self.builtin {
                self.name@ + seq![' ', '(', 'b', 'u', 'i', 'l', 't', '-', 'i', 'n', ')']
            } else {
                self.name@
            },
    {
        if self.builtin {
            let mut out = chars_of(self.name.as_str());
            let suffix = [' ', '(', 'b', 'u', 'i', 'l', 't', '-', 'i', 'n', ')'];
            let ghost start = out@;
            push_chars(&mut out, suffix.as_slice());
            proof {
                assert(suffix@ =~= seq![' ', '(', 'b', 'u', 'i', 'l', 't', '-', 'i', 'n', ')']);
            }
            string_from_chars(out.as_slice())
        } else {
            self.name.clone()
        }
    }
}

/// The lower-case form of a text that `str::to_lowercase` gives.
pub uninterp spec fn unicode_lowercase(text: Seq<char>) -> Seq<char>;

/// Lower-cases `text` with `str::to_lowercase`, which maps each character
/// by Unicode's lower-case mapping; the result is named
/// `unicode_lowercase(text)`.
#[verifier::external_body]
fn lowercase(text: &str) -> (r: String)
    ensures
        r@ == unicode_lowercase(text@),
{
    text.to_lowercase()
}

impl Ranked for ThemeChoice {
    /// The built-in theme comes first, then themes by lower-case name.
    open spec fn before(&self, other: &ThemeChoice) -> bool {
        ||| (self.builtin && !other.builtin)
        ||| (self.builtin == other.builtin && lex_less(
            codes(unicode_lowercase(self.name@)),
            codes(unicode_lowercase(other.name@)),
        ))
    }

    fn comes_before(&self, other: &ThemeChoice) -> (r: bool) {
        if self.builtin != other.builtin {
            return self.builtin;
        }
        let a = chars_of(lowercase(self.name.as_str()).as_str());
        let b = chars_of(lowercase(other.name.as_str()).as_str());
        crate::order::text_less(a.as_slice(), b.as_slice(), false)
    }

    proof fn before_irreflexive(a: &ThemeChoice) {
        lemma_lex_irreflexive(codes(unicode_lowercase(a.name@)));
    }

    proof fn before_transitive(a: &ThemeChoice, b: &ThemeChoice, c: &ThemeChoice) {
        if a.builtin == b.builtin && b.builtin == c.builtin {
            lemma_lex_transitive(
                codes(unicode_lowercase(a.name@)),
                codes(unicode_lowercase(b.name@)),
                codes(unicode_lowercase(c.name@)),
            );
        }
    }
}

/// A theme choice with the text it is ordered by.
pub struct KeyedChoice {
    pub choice: ThemeChoice,
    pub key: String,
}

impl Ranked for KeyedChoice {
    /// The built-in theme comes first, then choices by key.
    open spec fn before(&self, other: &KeyedChoice) -> bool {
        ||| (self.choice.builtin && !other.choice.builtin)
        ||| (self.choice.builtin == other.choice.builtin && lex_less(codes(self.key@), codes(other.key@)))
    }

    fn comes_before(&self, other: &KeyedChoice) -> (r: bool) {
        if self.choice.builtin != other.choice.builtin {
            return self.choice.builtin;
        }
        let a = chars_of(self.key.as_str());
        let b = chars_of(other.key.as_str());
        crate::order::text_less(a.as_slice(), b.as_slice(), false)
    }

    proof fn before_irreflexive(a: &KeyedChoice) {
        lemma_lex_irreflexive(codes(a.key@));
    }

    proof fn before_transitive(a: &KeyedChoice, b: &KeyedChoice, c: &KeyedChoice) {
        if a.choice.builtin == b.choice.builtin && b.choice.builtin == c.choice.builtin {
            lemma_lex_transitive(codes(a.key@), codes(b.key@), codes(c.key@));
        }
    }
}

/// Orders theme choices by their keys (their names in lower case): the
/// built-in theme first, then the others by key.  The same choices come
/// out, each as often as it went in.
pub fn order_choices(keyed: Vec<KeyedChoice>) -> (r: Vec<KeyedChoice>)
    ensures
        in_rank_order(r@),
        r@.to_multiset() == keyed@.to_multiset(),
        r@.len() == keyed@.len(),
{
    let ghost kv = keyed@;
    let r = sort_by_rank(keyed);
    proof {
        lemma_sorted_by_rank_ordered(kv);
        lemma_sorted_by_rank_items(kv);
    }
    r
}

/// The name and kind of a theme choice.
pub open spec fn choice_entry(c: ThemeChoice) -> (Seq<char>, bool) {
    (c.name@, c.builtin)
}

/// The names and kinds of a list of theme choices.
pub open spec fn choice_entries(s: Seq<ThemeChoice>) -> Seq<(Seq<char>, bool)> {
    s.map_values(|c: ThemeChoice| choice_entry(c))
}

/// The choices that a directory listing of theme file stems offers: the
/// built-in theme, then every stem other than its name.
pub open spec fn theme_listing(stems: Seq<String>) -> Seq<(Seq<char>, bool)> {
    seq![(builtin_theme(), true)] + stems.filter(|s: String| s@ != builtin_theme()).map_values(
        |s: String| (s@, false),
    )
}

/// Where user themes live.
pub struct ThemeStore {
    pub dir: String,
}

/// The name of the `i`-th automatically named theme: `default-custom`,
/// then `default-custom-2` and so on.
pub open spec fn auto_theme_name(i: u64) -> Seq<char> {
    let base = seq!['d', 'e', 'f', 'a', 'u', 'l', 't', '-', 'c', 'u', 's', 't', 'o', 'm'];
    if i == 1 {
        base
    } else {
        base + seq!['-'] + decimal(i as nat)
    }
}

impl ThemeStore {
    /// The theme store of a configuration directory.
    pub fn new(config_dir: &str) -> (r: ThemeStore)
        ensures
            r.dir@ == join_path_spec(config_dir@, themes_dir()),
    {
        let part = ['t', 'h', 'e', 'm', 'e', 's'];
        assert(part@ =~= themes_dir());
        ThemeStore { dir: join_path(config_dir, part.as_slice()) }
    }

    /// The file of the theme named `name`: its canonical name with a
    /// `.json` extension, in the theme directory.
    pub fn theme_path(&self, name: &str) -> (r: String)
        ensures
            r@ == join_path_spec(
                self.dir@,
                canonical_theme_spec(name@) + seq!['.', 'j', 's', 'o', 'n'],
            ),
    {
        let safe = canonical_theme_name(name);
        let mut file = chars_of(safe.as_str());
        let ext = ['.', 'j', 's', 'o', 'n'];
        push_chars(&mut file, ext.as_slice());
        proof {
            assert(ext@ =~= seq!['.', 'j', 's', 'o', 'n']);
        }
        join_path(self.dir.as_str(), file.as_slice())
    }

    /// The `i`-th candidate name for an automatically named theme.
    pub fn auto_name(i: u64) -> (r: String)
        ensures
            r@ == auto_theme_name(i),
    {
        let base = [
            'd', 'e', 'f', 'a', 'u', 'l', 't', '-', 'c', 'u', 's', 't', 'o', 'm',
        ];
        let mut out: Vec<char> = Vec::new();
        push_chars(&mut out, base.as_slice());
        if i != 1 {
            out.push('-');
            let digits = chars_of(u64_to_text(i).as_str());
            push_chars(&mut out, digits.as_slice());
        }
        proof {
            assert(base@ =~= seq!['d', 'e', 'f', 'a', 'u', 'l', 't', '-', 'c', 'u', 's', 't', 'o', 'm']);
        }
        string_from_chars(out.as_slice())
    }

    /// The themes to offer, given the stems of the theme files found: the
    /// built-in theme first, then the others by lower-case name.
    pub fn choices(stems: Vec<String>) -> (r: Vec<ThemeChoice>)
        ensures
            in_rank_order(r@),
            r@.len() == theme_listing(stems@).len(),
            forall|e: (Seq<char>, bool)| #[trigger] choice_entries(r@).contains(e) <==> theme_listing(stems@).contains(e),
    {
        let ghost sv = stems@;
        let ghost pred = |s: String| s@ != builtin_theme();
        let default_name = ['d', 'e', 'f', 'a', 'u', 'l', 't'];
        assert(default_name@ =~= builtin_theme());
        let mut init: Vec<ThemeChoice> = Vec::new();
        init.push(ThemeChoice { name: string_from_chars(default_name.as_slice()), builtin: true });
        let mut stems = stems;
        let n = stems.len();
        let mut k: usize = 0;
        while k < n
            invariant
                n == sv.len(),
                k <= n,
                stems@ == sv.skip(k as int),
                default_name@ == builtin_theme(),
                pred == (|s: String| s@ != builtin_theme()),
                choice_entries(init@) == seq![(builtin_theme(), true)] + sv.take(k as int).filter(pred).map_values(|s: String| (s@, false)),
            decreases n - k,
        {
            let stem = stems.remove(0);
            let ghost before = init@;
            proof {
                assert(stem == sv[k as int]);
                assert(sv.take(k + 1).drop_last() =~= sv.take(k as int));
                assert(sv.skip(k + 1) =~= sv.skip(k as int).drop_first());
                reveal_with_fuel(Seq::filter, 1);
            }
            if !crate::text::str_eq_chars(stem.as_str(), default_name.as_slice()) {
                init.push(ThemeChoice { name: stem, builtin: false });
                proof {
                    reveal_with_fuel(Seq::filter, 1);
                    assert(pred(sv[k as int]));
                    assert(choice_entries(init@) =~= choice_entries(before).push((sv[k as int]@, false)));
                    assert(sv.take(k + 1).filter(pred) == sv.take(k as int).filter(pred).push(sv[k as int]));
                    assert(sv.take(k + 1).filter(pred).map_values(|s: String| (s@, false)) =~= sv.take(k as int).filter(pred).map_values(|s: String| (s@, false)).push((sv[k as int]@, false)));
                }
            } else {
                proof {
                    reveal_with_fuel(Seq::filter, 1);
                    assert(!pred(sv[k as int]));
                    assert(sv.take(k + 1).filter(pred) == sv.take(k as int).filter(pred));
                }
            }
            k += 1;
        }
        proof {
            assert(sv.take(n as int) =~= sv);
        }
        let ghost iv = init@;
        let mut keyed: Vec<KeyedChoice> = Vec::new();
        let mut j: usize = 0;
        while j < init.len()
            invariant
                iv == init@,
                j <= iv.len(),
                keyed@.len() == j,
                forall|m: int| 0 <= m < j ==> (#[trigger] keyed@[m]).choice == iv[m]
                    && keyed@[m].key@ == unicode_lowercase(iv[m].name@),
            decreases iv.len() - j,
        {
            let name = init[j].name.clone();
            let key = lowercase(init[j].name.as_str());
            keyed.push(KeyedChoice { choice: ThemeChoice { name, builtin: init[j].builtin }, key });
            j += 1;
        }
        let ghost kv = keyed@;
        let sorted = order_choices(keyed);
        proof {
            broadcast use vstd::seq_lib::group_to_multiset_ensures;
        }
        let ghost sv2 = sorted@;
        assert forall|m: int| 0 <= m < sv2.len() implies (#[trigger] sv2[m]).key@ == unicode_lowercase(
            sv2[m].choice.name@,
        ) && iv.contains(sv2[m].choice) by {
            broadcast use vstd::seq_lib::group_to_multiset_ensures;
            assert(sv2.to_multiset().count(sv2[m]) > 0);
            assert(kv.contains(sv2[m]));
            let k = choose|k: int| 0 <= k < kv.len() && kv[k] == sv2[m];
        }
        assert forall|m: int| 0 <= m < iv.len() implies exists|x: int| 0 <= x < sv2.len() && (#[trigger] iv[m]) == sv2[x].choice by {
            broadcast use vstd::seq_lib::group_to_multiset_ensures;
            assert(kv[m].choice == iv[m]);
            assert(kv.to_multiset().count(kv[m]) > 0);
            assert(sv2.contains(kv[m]));
        }
        let mut r: Vec<ThemeChoice> = Vec::new();
        let mut i: usize = 0;
        while i < sorted.len()
            invariant
                sv2 == sorted@,
                i <= sv2.len(),
                r@.len() == i,
                forall|m: int| 0 <= m < i ==> (#[trigger] r@[m]) == sv2[m].choice,
            decreases sv2.len() - i,
        {
            let name = sorted[i].choice.name.clone();
            r.push(ThemeChoice { name, builtin: sorted[i].choice.builtin });
            i += 1;
        }
        proof {
            assert forall|a: int, b: int| #![trigger r@[a], r@[b]] 0 <= a < b < r@.len() implies !r@[b].before(&r@[a]) by {
                assert(!sv2[b].before(&sv2[a]));
                assert(sv2[a].key@ == unicode_lowercase(sv2[a].choice.name@));
                assert(sv2[b].key@ == unicode_lowercase(sv2[b].choice.name@));
            }
            let rv = choice_entries(r@);
            let ivv = choice_entries(iv);
            assert forall|e: (Seq<char>, bool)| #[trigger] rv.contains(e) <==> ivv.contains(e) by {
                if rv.contains(e) {
                    let x = choose|x: int| 0 <= x < rv.len() && rv[x] == e;
                    assert(r@[x] == sv2[x].choice);
                    assert(iv.contains(sv2[x].choice));
                    let y = choose|y: int| 0 <= y < iv.len() && iv[y] == sv2[x].choice;
                    assert(ivv[y] == e);
                }
                if ivv.contains(e) {
                    let y = choose|y: int| 0 <= y < ivv.len() && ivv[y] == e;
                    let x = choose|x: int| 0 <= x < sv2.len() && iv[y] == sv2[x].choice;
                    assert(rv[x] == e);
                }
            }
        }
        r
    }
}

/// A clamped bar height lies in the allowed range, a height in the range
/// is kept, and clamping twice changes nothing.
pub proof fn law_bar_height_clamped(height: u32)
    ensures
        BAR_MIN_HEIGHT <= clamped_bar_height(height) <= BAR_MAX_HEIGHT,
        BAR_MIN_HEIGHT <= height <= BAR_MAX_HEIGHT ==> clamped_bar_height(height) == height,
        clamped_bar_height(clamped_bar_height(height)) == clamped_bar_height(height),
{
}

/// Filtering a sequence whose elements all pass changes nothing.
proof fn lemma_filter_keeps_all<A>(s: Seq<A>, pred: spec_fn(A) -> bool)
    requires
        forall|i: int| 0 <= i < s.len() ==> pred(#[trigger] s[i]),
    ensures
        s.filter(pred) == s,
    decreases s.len(),
{
    reveal_with_fuel(Seq::filter, 1);
    if s.len() > 0 {
        lemma_filter_keeps_all(s.drop_last(), pred);
        assert(pred(s[s.len() - 1]));
        assert(s.drop_last().push(s.last()) =~= s);
    }
}

/// A canonical theme name holds no path separator or NUL, and
/// canonicalising it again changes nothing.
pub proof fn law_canonical_theme_name(name: Seq<char>)
    ensures
        forall|i: int|
            0 <= i < canonical_theme_spec(name).len() ==> theme_name_char(
                #[trigger] canonical_theme_spec(name)[i],
            ),
        canonical_theme_spec(canonical_theme_spec(name)) == canonical_theme_spec(name),
{
    broadcast use vstd::seq_lib::group_filter_ensures;

    let pred = |c: char| theme_name_char(c);
    let once = name.filter(pred);
    assert forall|i: int| 0 <= i < once.len() implies pred(#[trigger] once[i]) by {}
    lemma_filter_keeps_all(once, pred);
}

/// Whether settings may be written after `origins` changed them in turn,
/// starting from `start`.
pub open spec fn persist_flag(start: bool, origins: Seq<ChangeOrigin>) -> bool
    decreases origins.len(),
{
    if origins.len() == 0 {
        start
    } else {
        persist_step(persist_flag(start, origins.drop_last()), origins.last())
    }
}

/// A settings file that failed to load is written again only once the
/// user changed something: automatic changes never persist from that
/// state, however many there are.  After a good load, or without a file,
/// every change persists.
pub proof fn law_failed_load_is_not_overwritten(outcome: LoadOutcome, origins: Seq<ChangeOrigin>)
    ensures
        persist_flag(!(outcome is Failed), origins) == (!(outcome is Failed) || origins.contains(
            ChangeOrigin::User,
        )),
    decreases origins.len(),
{
    if origins.len() > 0 {
        let init = origins.drop_last();
        law_failed_load_is_not_overwritten(outcome, init);
        assert(origins =~= init.push(origins.last()));
        crate::search::lemma_contains_push(init, origins.last());
    }
}

/// No automatic theme name is the built-in theme's, so a copy of the
/// read-only built-in theme never writes over it.
pub proof fn law_builtin_theme_read_only(i: u64)
    ensures
        auto_theme_name(i) != builtin_theme(),
        auto_theme_name(i).len() >= 14,
{
    assert(auto_theme_name(i).len() >= 14);
}

} // verus!
