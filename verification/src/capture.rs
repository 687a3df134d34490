//! What the capture backend publishes about the graph: the applications
//! and devices that can be captured and the default sink.
use crate::graph::{
    app_label_spec, application_label, has_route_spec, label_precedes, label_precedes_spec,
    remembered_view, Graph, Remembered,
};
use crate::node::{is_device_spec, Node, NodeKind, NodeView, token_spec};
use crate::order::{
    codes, folded_codes, lemma_lex_irreflexive, lemma_lex_total, lemma_lex_transitive,
    lemma_sorted_by_rank_contains, lemma_sorted_by_rank_distinct, lemma_sorted_by_rank_ordered,
    lex_less, in_rank_order,
    sort_by_rank, sorted_by_rank, text_less, Ranked,
};
use crate::routing::StreamIdentity;
use crate::search::{first_index, lemma_first_index_at, lemma_first_index_facts, lemma_first_index_none};
use std::collections::HashMap;
use std::sync::Arc;
use vstd::prelude::*;
use vstd::std_specs::hash::spec_hash_map_iter;
use vstd::std_specs::iter::IteratorSpec;

verus! {

broadcast use vstd::std_specs::hash::group_hash_axioms;

/// One application that can be captured.
#[derive(Clone, Debug, PartialEq, Eq)]
pub struct ApplicationView {
    pub identity: StreamIdentity,
    pub label: String,
    pub active: bool,
}

/// An application as identity text, label text and activity.
pub type AppEntry = (Seq<char>, Seq<char>, bool);

/// The content of an application view.
pub open spec fn app_entry(a: ApplicationView) -> AppEntry {
    (a.identity.0@, a.label@, a.active)
}

/// The content of a list of application views.
pub open spec fn app_entries(s: Seq<ApplicationView>) -> Seq<AppEntry> {
    s.map_values(|a: ApplicationView| app_entry(a))
}

impl ApplicationView {
    /// A copy with the same content.
    pub fn duplicate(&self) -> (r: ApplicationView)
        ensures
            app_entry(r) == app_entry(*self),
    {
        ApplicationView {
            identity: self.identity.duplicate(),
            label: self.label.clone(),
            active: self.active,
        }
    }
}

/// Applications go by label, ignoring ASCII case, then by identity.
pub open spec fn app_before(a: AppEntry, b: AppEntry) -> bool {
    ||| lex_less(folded_codes(a.1), folded_codes(b.1))
    ||| (folded_codes(a.1) == folded_codes(b.1) && lex_less(codes(a.0), codes(b.0)))
}

impl Ranked for ApplicationView {
    open spec fn before(&self, other: &ApplicationView) -> bool {
        app_before(app_entry(*self), app_entry(*other))
    }

    fn comes_before(&self, other: &ApplicationView) -> (r: bool) {
        let a = crate::text::chars_of(self.label.as_str());
        let b = crate::text::chars_of(other.label.as_str());
        if text_less(a.as_slice(), b.as_slice(), true) {
            return true;
        }
        if text_less(b.as_slice(), a.as_slice(), true) {
            proof {
                lemma_lex_irreflexive(folded_codes(b@));
            }
            return false;
        }
        proof {
            if folded_codes(a@) != folded_codes(b@) {
                lemma_lex_total(folded_codes(a@), folded_codes(b@));
            }
        }
        let x = crate::text::chars_of(self.identity.0.as_str());
        let y = crate::text::chars_of(other.identity.0.as_str());
        text_less(x.as_slice(), y.as_slice(), false)
    }

    proof fn before_irreflexive(a: &ApplicationView) {
        lemma_lex_irreflexive(folded_codes(a.label@));
        lemma_lex_irreflexive(codes(a.identity.0@));
    }

    proof fn before_transitive(a: &ApplicationView, b: &ApplicationView, c: &ApplicationView) {
        let (fa, fb, fc) = (folded_codes(a.label@), folded_codes(b.label@), folded_codes(c.label@));
        if lex_less(fa, fb) && lex_less(fb, fc) {
            lemma_lex_transitive(fa, fb, fc);
        } else if lex_less(fa, fb) {
            assert(fb == fc);
        } else if lex_less(fb, fc) {
            assert(fa == fb);
        } else {
            lemma_lex_transitive(codes(a.identity.0@), codes(b.identity.0@), codes(c.identity.0@));
        }
    }
}

/// What the capture backend publishes about the graph.
#[derive(Clone, Debug, Default, PartialEq, Eq)]
pub struct CaptureView {
    pub applications: Vec<ApplicationView>,
    pub devices: Vec<String>,
    pub default_sink: String,
    pub selected_device: Option<String>,
}

/// The entry that a playback node contributes: its identity, its label,
/// and whether it plays somewhere other than the tap.
pub open spec fn playback_entry(
    n: NodeView,
    links: Map<u32, crate::graph::GraphLink>,
    tap_id: Option<u32>,
) -> Option<AppEntry> {
    if n.kind == NodeKind::Playback && n.identity is Some {
        Some(
            (
                n.identity->0,
                app_label_spec(n, n.identity->0),
                has_route_spec(links, n.id, tap_id, true),
            ),
        )
    } else {
        None
    }
}

/// `e` is an application that the graph offers: one that a known client
/// once played, inactive, or one that a playback node plays now.
pub open spec fn offered(g: &Graph, tap_id: Option<u32>, e: AppEntry) -> bool {
    ||| (!e.2 && exists|client: u32, i: int|
        #![trigger remembered_view(g.remembered_apps@[client]@)[i]]
        g.clients@.contains(client) && g.remembered_apps@.contains_key(client) && 0 <= i
            < g.remembered_apps@[client]@.len() && remembered_view(g.remembered_apps@[client]@)[i]
            == (e.0, e.1))
    ||| (exists|k: u32|
        #![trigger g.nodes@[k]]
        g.nodes@.contains_key(k) && playback_entry(g.nodes@[k]@, g.links@, tap_id) == Some(e))
}

/// `e` is the merged entry for its identity among the entries that `has`
/// holds: it is active when any of them is, and its label is the one that
/// sorts first among those of that activity.
pub open spec fn merged_entry(has: spec_fn(AppEntry) -> bool, e: AppEntry) -> bool {
    &&& has(e)
    &&& e.2 == exists|l: Seq<char>| #[trigger] has((e.0, l, true))
    &&& forall|l: Seq<char>| #[trigger] has((e.0, l, e.2)) ==> !label_precedes_spec(l, e.1)
}

/// `apps` merges the entries that `has` holds: one entry per identity,
/// for every identity that occurs.
pub open spec fn merges(has: spec_fn(AppEntry) -> bool, apps: Seq<AppEntry>) -> bool {
    &&& forall|i: int| 0 <= i < apps.len() ==> merged_entry(has, #[trigger] apps[i])
    &&& forall|i: int, j: int|
        #![trigger apps[i], apps[j]]
        0 <= i < apps.len() && 0 <= j < apps.len() && i != j ==> apps[i].0 != apps[j].0
    &&& forall|e: AppEntry| #[trigger] has(e) ==> exists|i: int| 0 <= i < apps.len() && apps[i].0 == e.0
}

/// The entries with identity `identity`.
pub open spec fn same_identity(identity: Seq<char>) -> spec_fn(AppEntry) -> bool {
    |a: AppEntry| a.0 == identity
}

/// Merges entry `c` into `apps`: an active entry wins over an inactive
/// one, and among equals the label that sorts first.
pub open spec fn merge_one(apps: Seq<AppEntry>, c: AppEntry) -> Seq<AppEntry> {
    match first_index(apps, same_identity(c.0)) {
        Some(i) => {
            let cur = apps[i];
            let replace = (c.2 && !cur.2) || (c.2 == cur.2 && label_precedes_spec(c.1, cur.1));
            apps.update(
                i,
                (
                    cur.0,
                    if replace {
                        c.1
                    } else {
                        cur.1
                    },
                    cur.2 || c.2,
                ),
            )
        },
        None => apps.push(c),
    }
}

/// Merges a sequence of entries, first to last.
pub open spec fn merge_all(s: Seq<AppEntry>) -> Seq<AppEntry>
    decreases s.len(),
{
    if s.len() == 0 {
        Seq::empty()
    } else {
        merge_one(merge_all(s.drop_last()), s.last())
    }
}

/// `label_precedes_spec` is irreflexive.
pub proof fn lemma_label_irreflexive(a: Seq<char>)
    ensures
        !label_precedes_spec(a, a),
{
    lemma_lex_irreflexive(folded_codes(a));
    lemma_lex_irreflexive(codes(a));
}

/// `label_precedes_spec` is transitive.
pub proof fn lemma_label_transitive(a: Seq<char>, b: Seq<char>, c: Seq<char>)
    requires
        label_precedes_spec(a, b),
        label_precedes_spec(b, c),
    ensures
        label_precedes_spec(a, c),
{
    let (fa, fb, fc) = (folded_codes(a), folded_codes(b), folded_codes(c));
    if lex_less(fa, fb) && lex_less(fb, fc) {
        lemma_lex_transitive(fa, fb, fc);
    } else if lex_less(fa, fb) {
        assert(fb == fc);
    } else if lex_less(fb, fc) {
        assert(fa == fb);
    } else {
        lemma_lex_transitive(codes(a), codes(b), codes(c));
    }
}

proof fn lemma_merged_entry_transfer(
    has_t: spec_fn(AppEntry) -> bool,
    has_s: spec_fn(AppEntry) -> bool,
    e: AppEntry,
)
    requires
        merged_entry(has_t, e),
        has_s(e),
        forall|l: Seq<char>| #[trigger] has_s((e.0, l, true)) == has_t((e.0, l, true)),
        forall|l: Seq<char>| #[trigger] has_s((e.0, l, e.2)) == has_t((e.0, l, e.2)),
    ensures
        merged_entry(has_s, e),
{
    if e.2 {
        let l = choose|l: Seq<char>| #[trigger] has_t((e.0, l, true));
        assert(has_s((e.0, l, true)));
    } else {
        assert forall|l: Seq<char>| !#[trigger] has_s((e.0, l, true)) by {
            if has_s((e.0, l, true)) {
                assert(has_t((e.0, l, true)));
            }
        }
    }
}

/// Merging all entries of `s` merges the entries that `s` contains.
pub proof fn lemma_merge_all(s: Seq<AppEntry>)
    ensures
        merges(|e: AppEntry| s.contains(e), merge_all(s)),
    decreases s.len(),
{
    if s.len() == 0 {
        return ;
    }
    let t = s.drop_last();
    let c = s.last();
    lemma_merge_all(t);
    let m = merge_all(t);
    let has_t = |e: AppEntry| t.contains(e);
    let has_s = |e: AppEntry| s.contains(e);
    assert(s =~= t.push(c));
    assert forall|e: AppEntry| #[trigger] has_s(e) == (has_t(e) || e == c) by {
        if s.contains(e) {
            let k = choose|k: int| 0 <= k < s.len() && s[k] == e;
            if k < t.len() {
                assert(t[k] == e);
            }
        }
        if t.contains(e) {
            let k = choose|k: int| 0 <= k < t.len() && t[k] == e;
            assert(s[k] == e);
        }
        if e == c {
            assert(s[s.len() - 1] == e);
        }
    }
    let out = merge_one(m, c);
    lemma_first_index_facts(m, same_identity(c.0));
    match first_index(m, same_identity(c.0)) {
        Some(i) => {
            let cur = m[i];
            assert(merged_entry(has_t, cur));
            assert forall|k: int| 0 <= k < out.len() implies merged_entry(has_s, #[trigger] out[k]) by {
                if k != i {
                    let e = out[k];
                    assert(e == m[k]);
                    assert(merged_entry(has_t, e));
                    assert(e.0 != c.0);
                    assert forall|l: Seq<char>| #[trigger] has_s((e.0, l, true)) == has_t((e.0, l, true)) by {}
                    assert forall|l: Seq<char>| #[trigger] has_s((e.0, l, e.2)) == has_t((e.0, l, e.2)) by {}
                    assert(has_s(e) == (has_t(e) || e == c));
                    lemma_merged_entry_transfer(has_t, has_s, e);
                } else {
                    let e = out[k];
                    let replace = (c.2 && !cur.2) || (c.2 == cur.2 && label_precedes_spec(c.1, cur.1));
                    assert(e == (cur.0, if replace { c.1 } else { cur.1 }, cur.2 || c.2));
                    assert(cur.0 == c.0);
                    if e.2 {
                        if c.2 {
                            assert(has_s((e.0, c.1, true)));
                        } else {
                            let l = choose|l: Seq<char>| #[trigger] has_t((cur.0, l, true));
                            assert(has_s((e.0, l, true)));
                        }
                    }
                    assert forall|l: Seq<char>| #[trigger] has_s((e.0, l, e.2)) implies !label_precedes_spec(l, e.1) by {
                        if (e.0, l, e.2) == c {
                            if replace {
                                lemma_label_irreflexive(c.1);
                            }
                        } else {
                            assert(has_t((cur.0, l, e.2)));
                            if e.2 != cur.2 {
                                assert(has_t((cur.0, l, true)));
                            }
                            assert(!label_precedes_spec(l, cur.1));
                            if replace && label_precedes_spec(l, c.1) {
                                if c.2 == cur.2 {
                                    lemma_label_transitive(l, c.1, cur.1);
                                } else {
                                    assert(has_t((cur.0, l, true)));
                                }
                            }
                        }
                    }
                    if replace {
                        assert(has_s(e));
                    } else {
                        if e.2 == cur.2 {
                            assert(has_t(cur));
                            assert(has_s(e));
                        } else {
                            assert(c.2 && cur.2 == false);
                            assert(false);
                        }
                    }
                }
            }
            assert forall|a: int, b: int|
                #![trigger out[a], out[b]]
                0 <= a < out.len() && 0 <= b < out.len() && a != b implies out[a].0 != out[b].0 by {
                assert(m[a].0 != m[b].0);
            }
            assert forall|e: AppEntry| #[trigger] has_s(e) implies exists|k: int|
                0 <= k < out.len() && out[k].0 == e.0 by {
                if e == c {
                    assert(out[i].0 == e.0);
                } else {
                    assert(has_t(e));
                    let k = choose|k: int| 0 <= k < m.len() && m[k].0 == e.0;
                    assert(out[k].0 == e.0);
                }
            }
        },
        None => {
            assert(out == m.push(c));
            assert forall|k: int| 0 <= k < out.len() implies merged_entry(has_s, #[trigger] out[k]) by {
                if k < m.len() {
                    let e = out[k];
                    assert(e == m[k]);
                    assert(merged_entry(has_t, e));
                    assert(!same_identity(c.0)(m[k]));
                    assert forall|l: Seq<char>| #[trigger] has_s((e.0, l, true)) == has_t((e.0, l, true)) by {}
                    assert forall|l: Seq<char>| #[trigger] has_s((e.0, l, e.2)) == has_t((e.0, l, e.2)) by {}
                    assert(has_s(e) == (has_t(e) || e == c));
                    lemma_merged_entry_transfer(has_t, has_s, e);
                } else {
                    assert(out[k] == c);
                    assert(has_s(c) == (has_t(c) || c == c));
                    if c.2 {
                        assert(has_s((c.0, c.1, true)));
                    }
                    assert forall|l: Seq<char>| #[trigger] has_t((c.0, l, true)) implies false by {
                        let j = choose|j: int| 0 <= j < m.len() && m[j].0 == c.0;
                        assert(!same_identity(c.0)(m[j]));
                    }
                    assert forall|l: Seq<char>| #[trigger] has_s((c.0, l, c.2)) implies !label_precedes_spec(l, c.1) by {
                        if (c.0, l, c.2) != c {
                            assert(has_t((c.0, l, c.2)));
                            let j = choose|j: int| 0 <= j < m.len() && m[j].0 == c.0;
                            assert(!same_identity(c.0)(m[j]));
                        } else {
                            lemma_label_irreflexive(c.1);
                        }
                    }
                    if !c.2 {
                        assert forall|l: Seq<char>| !#[trigger] has_s((c.0, l, true)) by {
                            if has_s((c.0, l, true)) {
                                assert((c.0, l, true) != c);
                                assert(has_t((c.0, l, true)));
                            }
                        }
                    }
                }
            }
            assert forall|a: int, b: int|
                #![trigger out[a], out[b]]
                0 <= a < out.len() && 0 <= b < out.len() && a != b implies out[a].0 != out[b].0 by {
                if a < m.len() && b < m.len() {
                    assert(m[a].0 != m[b].0);
                } else if a < m.len() {
                    assert(!same_identity(c.0)(m[a]));
                } else {
                    assert(!same_identity(c.0)(m[b]));
                }
            }
            assert forall|e: AppEntry| #[trigger] has_s(e) implies exists|k: int|
                0 <= k < out.len() && out[k].0 == e.0 by {
                if e == c {
                    assert(out[m.len() as int].0 == e.0);
                } else {
                    assert(has_t(e));
                    let k = choose|k: int| 0 <= k < m.len() && m[k].0 == e.0;
                    assert(out[k].0 == e.0);
                }
            }
        },
    }
}

/// Merges `c` into `apps`, as `merge_one` says.
fn merge_into(apps: &mut Vec<ApplicationView>, c: ApplicationView)
    ensures
        app_entries(final(apps)@) == merge_one(app_entries(old(apps)@), app_entry(c)),
{
    let ghost start = apps@;
    let ghost sv = app_entries(start);
    let ghost p = same_identity(c.identity.0@);
    let mut i: usize = 0;
    while i < apps.len()
        invariant
            apps@ == start,
            start == old(apps)@,
            sv == app_entries(start),
            p == same_identity(c.identity.0@),
            i <= start.len(),
            forall|j: int| 0 <= j < i ==> !p(#[trigger] sv[j]),
        decreases start.len() - i,
    {
        proof {
            assert(sv[i as int] == app_entry(start[i as int]));
        }
        if apps[i].identity.same_as(&c.identity) {
            proof {
                assert(p(sv[i as int]));
                lemma_first_index_at(sv, p, i as int);
            }
            let cur_active = apps[i].active;
            let replace = (c.active && !cur_active) || (c.active == cur_active && label_precedes(
                c.label.as_str(),
                apps[i].label.as_str(),
            ));
            let label = if replace {
                c.label
            } else {
                apps[i].label.clone()
            };
            let entry = ApplicationView {
                identity: apps[i].identity.duplicate(),
                label,
                active: cur_active || c.active,
            };
            apps.set(i, entry);
            proof {
                assert(app_entries(apps@) =~= merge_one(sv, app_entry(c)));
            }
            return ;
        }
        proof {
            assert(!p(sv[i as int]));
        }
        i += 1;
    }
    proof {
        lemma_first_index_none(sv, p);
    }
    apps.push(c);
    proof {
        assert(app_entries(apps@) =~= sv.push(app_entry(c)));
    }
}

/// A device's label, `t`.
pub open spec fn device_token(g: &Graph, t: Seq<char>) -> bool {
    exists|k: u32|
        #![trigger g.nodes@[k]]
        g.nodes@.contains_key(k) && is_device_spec(g.nodes@[k]@) && token_spec(g.nodes@[k]@) == t
}

/// `devices` lists the device labels once each, ignoring ASCII case, in
/// order ignoring ASCII case.
pub open spec fn devices_listed(g: &Graph, devices: Seq<String>) -> bool {
    &&& forall|i: int| 0 <= i < devices.len() ==> device_token(g, #[trigger] devices[i]@)
    &&& forall|t: Seq<char>| #[trigger] device_token(g, t) ==> exists|i: int|
        0 <= i < devices.len() && folded_codes(devices[i]@) == folded_codes(t)
    &&& folded_strict(devices)
}

/// The label shown when there is no default sink.
pub open spec fn none_label() -> Seq<char> {
    seq!['(', 'n', 'o', 'n', 'e', ')']
}

/// The label of the default sink: the label of the node it resolves to,
/// else the name it has, else `(none)`.
pub open spec fn default_sink_shown(g: &Graph, label: Seq<char>) -> bool {
    match g.default_sink {
        None => label == none_label(),
        Some(t) => {
            ||| exists|n: Node|
                #[trigger] crate::graph::resolved(g.nodes@, t@, Some(n)) && label == token_spec(n@)
            ||| (crate::graph::resolved(g.nodes@, t@, None) && label == match t@.name {
                Some(x) => x,
                None => none_label(),
            })
        },
    }
}

/// `shown` is the label of a device that `token` selects, or none when it
/// selects none.
pub open spec fn device_shown(g: &Graph, token: Seq<char>, shown: Option<Seq<char>>) -> bool {
    exists|n: Option<Node>|
        #[trigger] crate::graph::found_device(g.nodes@, token, n) && shown == match n {
            Some(n) => Some(token_spec(n@)),
            None => None,
        }
}

/// The label of the selected device, when a selection names one.
pub open spec fn selected_shown(g: &Graph, selected: Option<Seq<char>>, shown: Option<Seq<char>>) -> bool {
    match selected {
        None => shown is None,
        Some(token) => device_shown(g, token, shown),
    }
}

impl Ranked for String {
    /// Texts go in lexicographic order, ignoring ASCII case.
    open spec fn before(&self, other: &String) -> bool {
        lex_less(folded_codes(self@), folded_codes(other@))
    }

    fn comes_before(&self, other: &String) -> (r: bool) {
        let a = crate::text::chars_of(self.as_str());
        let b = crate::text::chars_of(other.as_str());
        text_less(a.as_slice(), b.as_slice(), true)
    }

    proof fn before_irreflexive(a: &String) {
        lemma_lex_irreflexive(folded_codes(a@));
    }

    proof fn before_transitive(a: &String, b: &String, c: &String) {
        lemma_lex_transitive(folded_codes(a@), folded_codes(b@), folded_codes(c@));
    }
}

proof fn lemma_eq_fold_codes(a: Seq<char>, b: Seq<char>)
    ensures
        crate::text::eq_fold(a, b) <==> folded_codes(a) == folded_codes(b),
{
    if crate::text::eq_fold(a, b) {
        assert(folded_codes(a) =~= folded_codes(b));
    }
    if folded_codes(a) == folded_codes(b) {
        assert(folded_codes(a).len() == a.len() && folded_codes(b).len() == b.len());
        assert forall|i: int| 0 <= i < a.len() implies crate::text::ascii_fold(#[trigger] a[i])
            == crate::text::ascii_fold(b[i]) by {
            assert(folded_codes(a)[i] == folded_codes(b)[i]);
        }
    }
}

/// No two texts of `d` are equal ignoring ASCII case, and they go in order
/// ignoring ASCII case.
pub open spec fn folded_strict(d: Seq<String>) -> bool {
    forall|a: int, b: int|
        #![trigger d[a], d[b]]
        0 <= a < b < d.len() ==> lex_less(folded_codes(d[a]@), folded_codes(d[b]@))
}

proof fn lemma_strict_push(before: Seq<String>, x: String)
    requires
        folded_strict(before),
        before.len() > 0 ==> lex_less(folded_codes(before.last()@), folded_codes(x@)),
    ensures
        folded_strict(before.push(x)),
{
    let out = before.push(x);
    assert forall|a: int, b: int| #![trigger out[a], out[b]] 0 <= a < b < out.len() implies lex_less(
        folded_codes(out[a]@),
        folded_codes(out[b]@),
    ) by {
        if b < before.len() {
            assert(out[a] == before[a] && out[b] == before[b]);
        } else if a < before.len() - 1 {
            assert(out[a] == before[a]);
            assert(lex_less(folded_codes(before[a]@), folded_codes(before[before.len() - 1]@)));
            lemma_lex_transitive(
                folded_codes(before[a]@),
                folded_codes(before.last()@),
                folded_codes(x@),
            );
        } else {
            assert(out[a] == before.last());
        }
    }
}

/// Keeps the first of each run of texts that are equal ignoring ASCII case.
fn dedup_folded(sorted: Vec<String>) -> (r: Vec<String>)
    requires
        in_rank_order(sorted@),
    ensures
        forall|x: int| 0 <= x < r@.len() ==> sorted@.contains(#[trigger] r@[x]),
        forall|y: int| 0 <= y < sorted@.len() ==> exists|x: int| 0 <= x < r@.len() && folded_codes(r@[x]@) == folded_codes((#[trigger] sorted@[y])@),
        folded_strict(r@),
{
    let mut devices: Vec<String> = Vec::new();
    let mut i: usize = 0;
    while i < sorted.len()
        invariant
            i <= sorted@.len(),
            in_rank_order(sorted@),
            forall|x: int| 0 <= x < devices@.len() ==> sorted@.contains(#[trigger] devices@[x]),
            forall|y: int| 0 <= y < i ==> exists|x: int| 0 <= x < devices@.len() && folded_codes(devices@[x]@) == folded_codes((#[trigger] sorted@[y])@),
            folded_strict(devices@),
            i > 0 ==> devices@.len() > 0 && folded_codes(devices@.last()@) == folded_codes(sorted@[i - 1]@),
            i == 0 ==> devices@.len() == 0,
        decreases sorted@.len() - i,
    {
        let same = devices.len() > 0 && crate::text::eq_ignore_ascii_case(
            devices[devices.len() - 1].as_str(),
            sorted[i].as_str(),
        );
        proof {
            if devices@.len() > 0 {
                lemma_eq_fold_codes(devices@.last()@, sorted@[i as int]@);
            }
        }
        let ghost before = devices@;
        if !same {
            proof {
                if i > 0 {
                    assert(!sorted@[i as int].before(&sorted@[i - 1]));
                    lemma_lex_total(folded_codes(sorted@[i - 1]@), folded_codes(sorted@[i as int]@));
                }
                lemma_strict_push(before, sorted@[i as int]);
            }
            devices.push(sorted[i].clone());
            proof {
                assert(devices@ == before.push(sorted@[i as int]));
                assert(sorted@.contains(sorted@[i as int]));
            }
        }
        proof {
            assert forall|y: int| 0 <= y < i + 1 implies exists|x: int| 0 <= x < devices@.len()
                && folded_codes(devices@[x]@) == folded_codes((#[trigger] sorted@[y])@) by {
                if y < i {
                    let x = choose|x: int| 0 <= x < before.len() && folded_codes(before[x]@) == folded_codes(sorted@[y]@);
                    assert(devices@[x] == before[x]);
                } else {
                    assert(folded_codes(devices@[devices@.len() - 1]@) == folded_codes(sorted@[i as int]@));
                }
            }
        }
        i += 1;
    }
    devices
}

impl Graph {
    /// The applications that the graph offers, one entry per offer.
    fn offered_entries(&self, tap_id: Option<u32>) -> (r: Vec<ApplicationView>)
        ensures
            forall|e: AppEntry| #[trigger] app_entries(r@).contains(e) <==> offered(self, tap_id, e),
    {
        let ghost rall = spec_hash_map_iter(&self.remembered_apps).remaining();
        let mut out: Vec<ApplicationView> = Vec::new();
        for entry in it: self.remembered_apps.iter()
            invariant
                it.seq() == rall,
                forall|x: AppEntry| #[trigger] app_entries(out@).contains(x) ==> offered(self, tap_id, x),
                forall|j: int, i: int|
                    #![trigger remembered_view(rall[j].1@)[i]]
                    0 <= j < it.index() && self.clients@.contains(*rall[j].0) && 0 <= i < rall[j].1@.len()
                        ==> app_entries(out@).contains(
                        (remembered_view(rall[j].1@)[i].0, remembered_view(rall[j].1@)[i].1, false),
                    ),
                forall|i: int|
                    0 <= i < rall.len() ==> self.remembered_apps@.contains_key(*rall[i].0)
                        && self.remembered_apps@[*rall[i].0] == *rall[i].1,
        {
            let (client, list) = entry;
            if self.clients.contains(client) {
                let ghost before = out@;
                let mut i: usize = 0;
                while i < list.len()
                    invariant
                        i <= list@.len(),
                        self.clients@.contains(*client),
                        self.remembered_apps@.contains_key(*client),
                        self.remembered_apps@[*client] == *list,
                        forall|x: AppEntry| #[trigger] app_entries(before).contains(x) ==> app_entries(out@).contains(x),
                        forall|x: AppEntry| #[trigger] app_entries(out@).contains(x) ==> offered(self, tap_id, x),
                        forall|k: int|
                            #![trigger remembered_view(list@)[k]]
                            0 <= k < i ==> app_entries(out@).contains(
                                (remembered_view(list@)[k].0, remembered_view(list@)[k].1, false),
                            ),
                    decreases list@.len() - i,
                {
                    let a = ApplicationView {
                        identity: list[i].identity.duplicate(),
                        label: list[i].label.clone(),
                        active: false,
                    };
                    let ghost prev = app_entries(out@);
                    out.push(a);
                    proof {
                        assert(app_entries(out@) =~= prev.push(app_entry(a)));
                        crate::search::lemma_contains_push(prev, app_entry(a));
                        assert(remembered_view(list@)[i as int] == (list@[i as int].identity.0@, list@[i as int].label@));
                        assert(remembered_view(self.remembered_apps@[*client]@)[i as int] == (app_entry(a).0, app_entry(a).1));
                        assert(offered(self, tap_id, app_entry(a)));
                    }
                    i += 1;
                }
            }
        }
        let ghost nall = spec_hash_map_iter(&self.nodes).remaining();
        let ghost after_remembered = app_entries(out@);
        for entry in it: self.nodes.iter()
            invariant
                it.seq() == nall,
                forall|x: AppEntry| #[trigger] after_remembered.contains(x) ==> app_entries(out@).contains(x),
                forall|x: AppEntry| #[trigger] app_entries(out@).contains(x) ==> offered(self, tap_id, x),
                forall|j: int|
                    0 <= j < it.index() && (#[trigger] playback_entry(nall[j].1@, self.links@, tap_id)) is Some
                        ==> app_entries(out@).contains(playback_entry(nall[j].1@, self.links@, tap_id)->0),
                forall|i: int|
                    0 <= i < nall.len() ==> self.nodes@.contains_key(*nall[i].0) && self.nodes@[*nall[i].0]
                        == *nall[i].1,
        {
            let (k, n) = entry;
            if n.kind == NodeKind::Playback {
                if let Some(identity) = &n.identity {
                    let a = ApplicationView {
                        identity: identity.duplicate(),
                        label: application_label(n, identity),
                        active: self.has_active_external_route(n.id, tap_id),
                    };
                    let ghost prev = app_entries(out@);
                    out.push(a);
                    proof {
                        assert(app_entries(out@) =~= prev.push(app_entry(a)));
                        crate::search::lemma_contains_push(prev, app_entry(a));
                        assert(playback_entry(self.nodes@[*k]@, self.links@, tap_id) == Some(app_entry(a)));
                        assert(offered(self, tap_id, app_entry(a)));
                    }
                }
            }
        }
        proof {
            let outv = app_entries(out@);
            assert forall|e: AppEntry| offered(self, tap_id, e) implies #[trigger] outv.contains(e) by {
                if exists|k: u32|
                    #![trigger self.nodes@[k]]
                    self.nodes@.contains_key(k) && playback_entry(self.nodes@[k]@, self.links@, tap_id) == Some(e) {
                    let k = choose|k: u32|
                        #![trigger self.nodes@[k]]
                        self.nodes@.contains_key(k) && playback_entry(self.nodes@[k]@, self.links@, tap_id) == Some(e);
                    assert(nall.contains((&k, &self.nodes@[k])));
                    let j = choose|j: int| 0 <= j < nall.len() && nall[j] == (&k, &self.nodes@[k]);
                    assert(playback_entry(nall[j].1@, self.links@, tap_id) is Some);
                } else {
                    let (client, i) = choose|client: u32, i: int|
                        #![trigger remembered_view(self.remembered_apps@[client]@)[i]]
                        self.clients@.contains(client) && self.remembered_apps@.contains_key(client) && 0 <= i
                            < self.remembered_apps@[client]@.len() && remembered_view(self.remembered_apps@[client]@)[i]
                            == (e.0, e.1);
                    assert(rall.contains((&client, &self.remembered_apps@[client])));
                    let j = choose|j: int| 0 <= j < rall.len() && rall[j] == (&client, &self.remembered_apps@[client]);
                    assert(remembered_view(rall[j].1@)[i] == (e.0, e.1));
                    assert(after_remembered.contains((e.0, e.1, false)));
                }
            }
        }
        out
    }

    /// The labels of the device nodes, one per device.
    fn device_tokens(&self) -> (r: Vec<String>)
        ensures
            forall|i: int| 0 <= i < r@.len() ==> device_token(self, #[trigger] r@[i]@),
            forall|t: Seq<char>| #[trigger] device_token(self, t) ==> exists|i: int|
                0 <= i < r@.len() && r@[i]@ == t,
    {
        let ghost nall = spec_hash_map_iter(&self.nodes).remaining();
        let mut out: Vec<String> = Vec::new();
        for entry in it: self.nodes.iter()
            invariant
                it.seq() == nall,
                forall|i: int| 0 <= i < out@.len() ==> device_token(self, #[trigger] out@[i]@),
                forall|j: int|
                    0 <= j < it.index() && is_device_spec((#[trigger] nall[j]).1@) ==> exists|i: int|
                        0 <= i < out@.len() && out@[i]@ == token_spec(nall[j].1@),
                forall|i: int|
                    0 <= i < nall.len() ==> self.nodes@.contains_key(*nall[i].0) && self.nodes@[*nall[i].0]
                        == *nall[i].1,
        {
            let (k, n) = entry;
            if n.is_device() {
                let t = n.token();
                proof {
                    assert(self.nodes@[*k] == *n);
                    assert(device_token(self, t@));
                }
                let ghost before = out@;
                out.push(t);
                proof {
                    assert(out@[before.len() as int] == t);
                    assert forall|x: int| 0 <= x < before.len() implies out@[x] == before[x] by {}
                }
            }
        }
        proof {
            assert forall|t: Seq<char>| #[trigger] device_token(self, t) implies exists|i: int|
                0 <= i < out@.len() && out@[i]@ == t by {
                let k = choose|k: u32|
                    #![trigger self.nodes@[k]]
                    self.nodes@.contains_key(k) && is_device_spec(self.nodes@[k]@) && token_spec(self.nodes@[k]@) == t;
                assert(nall.contains((&k, &self.nodes@[k])));
                let j = choose|j: int| 0 <= j < nall.len() && nall[j] == (&k, &self.nodes@[k]);
                assert(is_device_spec(nall[j].1@));
            }
        }
        out
    }

    /// The offered applications merged per identity and put in order.
    pub fn applications(&self, tap_id: Option<u32>) -> (r: Vec<ApplicationView>)
        ensures
            merges(|e: AppEntry| offered(self, tap_id, e), app_entries(r@)),
            in_rank_order(r@),
    {
        let entries = self.offered_entries(tap_id);
        let ghost ev = app_entries(entries@);
        let mut merged: Vec<ApplicationView> = Vec::new();
        let mut k: usize = 0;
        while k < entries.len()
            invariant
                k <= entries@.len(),
                ev == app_entries(entries@),
                app_entries(merged@) == merge_all(ev.take(k as int)),
            decreases entries@.len() - k,
        {
            proof {
                assert(ev.take(k + 1).drop_last() =~= ev.take(k as int));
                assert(ev.take(k + 1).last() == app_entry(entries@[k as int]));
            }
            merge_into(&mut merged, entries[k].duplicate());
            k += 1;
        }
        proof {
            assert(ev.take(ev.len() as int) =~= ev);
            lemma_merge_all(ev);
            let has_ev = |e: AppEntry| ev.contains(e);
            let has_g = |e: AppEntry| offered(self, tap_id, e);
            assert forall|e: AppEntry| #[trigger] has_ev(e) == has_g(e) by {}
            assert(has_ev =~= has_g);
        }
        let ghost unsorted = merged@;
        let applications = sort_by_rank(merged);
        proof {
            let has_g = |e: AppEntry| offered(self, tap_id, e);
            let mv = app_entries(unsorted);
            let sv = app_entries(applications@);
            lemma_sorted_by_rank_ordered(unsorted);
            lemma_sorted_by_rank_contains(unsorted);
            let key = |a: ApplicationView| a.identity.0@;
            assert forall|i: int, j: int|
                #![trigger unsorted[i], unsorted[j]]
                0 <= i < unsorted.len() && 0 <= j < unsorted.len() && i != j implies key(unsorted[i]) != key(unsorted[j]) by {
                assert(mv[i].0 != mv[j].0);
            }
            lemma_sorted_by_rank_distinct(unsorted, key);
            assert forall|i: int| 0 <= i < sv.len() implies merged_entry(has_g, #[trigger] sv[i]) by {
                assert(applications@.contains(applications@[i]));
                assert(unsorted.contains(applications@[i]));
                let j = choose|j: int| 0 <= j < unsorted.len() && unsorted[j] == applications@[i];
                assert(mv[j] == sv[i]);
            }
            assert forall|i: int, j: int|
                #![trigger sv[i], sv[j]]
                0 <= i < sv.len() && 0 <= j < sv.len() && i != j implies sv[i].0 != sv[j].0 by {
                assert(key(applications@[i]) != key(applications@[j]));
            }
            assert forall|e: AppEntry| #[trigger] has_g(e) implies exists|i: int| 0 <= i < sv.len() && sv[i].0 == e.0 by {
                let j = choose|j: int| 0 <= j < mv.len() && mv[j].0 == e.0;
                assert(unsorted.contains(unsorted[j]));
                assert(applications@.contains(unsorted[j]));
                let i = choose|i: int| 0 <= i < applications@.len() && applications@[i] == unsorted[j];
                assert(sv[i].0 == e.0);
            }
        }
        applications
    }

    /// The device labels, once each and in order, ignoring ASCII case.
    pub fn device_list(&self) -> (r: Vec<String>)
        ensures
            devices_listed(self, r@),
    {
        let tokens = self.device_tokens();
        let ghost tv = tokens@;
        let sorted = sort_by_rank(tokens);
        proof {
            lemma_sorted_by_rank_ordered(tv);
            lemma_sorted_by_rank_contains(tv);
        }
        let devices = dedup_folded(sorted);
        proof {
            let sorted_v = sorted_by_rank(tv);
            assert forall|x: int| 0 <= x < devices@.len() implies device_token(self, #[trigger] devices@[x]@) by {
                assert(sorted_v.contains(devices@[x]));
                assert(tv.contains(devices@[x]));
                let z = choose|z: int| 0 <= z < tv.len() && tv[z] == devices@[x];
                assert(device_token(self, tv[z]@));
            }
            assert forall|t: Seq<char>| #[trigger] device_token(self, t) implies exists|x: int|
                0 <= x < devices@.len() && folded_codes(devices@[x]@) == folded_codes(t) by {
                let z = choose|z: int| 0 <= z < tv.len() && tv[z]@ == t;
                assert(tv.contains(tv[z]));
                assert(sorted_v.contains(tv[z]));
                let y = choose|y: int| 0 <= y < sorted_v.len() && sorted_v[y] == tv[z];
                assert(folded_codes(sorted_v[y]@) == folded_codes(t));
            }
        }
        devices
    }

    /// What the backend publishes: the applications that can be captured,
    /// the devices, the default sink's label and the selected device's
    /// label.
    pub fn view(&self, tap_id: Option<u32>, selected_device: Option<&str>) -> (r: CaptureView)
        ensures
            merges(|e: AppEntry| offered(self, tap_id, e), app_entries(r.applications@)),
            in_rank_order(r.applications@),
            devices_listed(self, r.devices@),
            default_sink_shown(self, r.default_sink@),
            selected_shown(
                self,
                crate::text::opt_str_view(selected_device),
                crate::text::opt_view(r.selected_device),
            ),
    {
        let applications = self.applications(tap_id);
        let devices = self.device_list();
        let default_sink = match &self.default_sink {
            Some(t) => match self.resolve_target(t) {
                Some(n) => n.token(),
                None => match &t.name {
                    Some(name) => name.clone(),
                    None => crate::text::string_from_chars(['(', 'n', 'o', 'n', 'e', ')'].as_slice()),
                },
            },
            None => crate::text::string_from_chars(['(', 'n', 'o', 'n', 'e', ')'].as_slice()),
        };
        proof {
            reveal_strlit("(none)");
            assert(['(', 'n', 'o', 'n', 'e', ')']@ =~= none_label());
        }
        let selected = match selected_device {
            Some(token) => {
                let found = self.find_device(token);
                let ghost fv = match found {
                    Some(n) => Some(*n),
                    None => None,
                };
                let shown = match found {
                    Some(n) => Some(n.token()),
                    None => None,
                };
                proof {
                    assert(crate::graph::found_device(self.nodes@, token@, fv));
                    assert(crate::text::opt_view(shown) == match fv {
                        Some(n) => Some(token_spec(n@)),
                        None => None,
                    });
                    assert(device_shown(self, token@, crate::text::opt_view(shown)));
                }
                shown
            },
            None => None,
        };
        CaptureView { applications, devices, default_sink, selected_device: selected }
    }
}

/// The content of a capture view.
pub struct CaptureContent {
    pub applications: Seq<AppEntry>,
    pub devices: Seq<Seq<char>>,
    pub default_sink: Seq<char>,
    pub selected_device: Option<Seq<char>>,
}

/// The texts of a list of strings.
pub open spec fn texts(s: Seq<String>) -> Seq<Seq<char>> {
    s.map_values(|t: String| t@)
}

impl View for CaptureView {
    type V = CaptureContent;

    open spec fn view(&self) -> CaptureContent {
        CaptureContent {
            applications: app_entries(self.applications@),
            devices: texts(self.devices@),
            default_sink: self.default_sink@,
            selected_device: crate::text::opt_view(self.selected_device),
        }
    }
}

impl CaptureView {
    /// A view with nothing to show.
    pub fn empty() -> (r: CaptureView)
        ensures
            r@.applications.len() == 0,
            r@.devices.len() == 0,
            r@.default_sink.len() == 0,
            r@.selected_device is None,
    {
        CaptureView {
            applications: Vec::new(),
            devices: Vec::new(),
            default_sink: String::new(),
            selected_device: None,
        }
    }

    /// Whether two views show the same content.
    pub fn same_content(&self, other: &CaptureView) -> (r: bool)
        ensures
            r == (self@ == other@),
    {
        if self.applications.len() != other.applications.len() || self.devices.len()
            != other.devices.len() {
            proof {
                assert(self@.applications.len() != other@.applications.len() || self@.devices.len()
                    != other@.devices.len());
            }
            return false;
        }
        let mut i: usize = 0;
        while i < self.applications.len()
            invariant
                i <= self.applications@.len(),
                self.applications@.len() == other.applications@.len(),
                forall|k: int| 0 <= k < i ==> app_entry(#[trigger] self.applications@[k]) == app_entry(
                    other.applications@[k],
                ),
            decreases self.applications@.len() - i,
        {
            let a = &self.applications[i];
            let b = &other.applications[i];
            if !(a.identity.same_as(&b.identity) && a.label == b.label && a.active == b.active) {
                proof {
                    assert(self@.applications[i as int] != other@.applications[i as int]);
                }
                return false;
            }
            i += 1;
        }
        let mut j: usize = 0;
        while j < self.devices.len()
            invariant
                j <= self.devices@.len(),
                self.devices@.len() == other.devices@.len(),
                forall|k: int| 0 <= k < j ==> (#[trigger] self.devices@[k])@ == other.devices@[k]@,
            decreases self.devices@.len() - j,
        {
            if self.devices[j] != other.devices[j] {
                proof {
                    assert(self@.devices[j as int] != other@.devices[j as int]);
                }
                return false;
            }
            j += 1;
        }
        proof {
            assert(self@.applications =~= other@.applications);
            assert(self@.devices =~= other@.devices);
        }
        self.default_sink == other.default_sink && crate::text::opt_text_eq(
            &self.selected_device,
            &other.selected_device,
        )
    }
}

/// Hands out another reference to the same published view with
/// `Arc::clone`, which points at the same allocation.
#[verifier::external_body]
fn share(view: &Arc<CaptureView>) -> (r: Arc<CaptureView>)
    ensures
        r == *view,
{
    Arc::clone(view)
}

/// The view that the backend last published.
pub struct PublicState {
    pub view: Arc<CaptureView>,
}

impl PublicState {
    /// A state that publishes the empty view.
    pub fn new() -> (r: PublicState)
        ensures
            r.view@.applications.len() == 0,
            r.view@.devices.len() == 0,
            r.view@.default_sink.len() == 0,
            r.view@.selected_device is None,
    {
        PublicState { view: Arc::new(CaptureView::empty()) }
    }

    /// Publishes `view`; the published view is replaced only when its
    /// content differs, so readers can tell a change by identity.
    pub fn publish(&mut self, view: CaptureView)
        ensures
            old(self).view@ == view@ ==> final(self).view == old(self).view,
            old(self).view@ != view@ ==> *final(self).view == view,
    {
        if !self.view.same_content(&view) {
            self.view = Arc::new(view);
        }
    }

    /// The published view.
    pub fn view(&self) -> (r: Arc<CaptureView>)
        ensures
            r == self.view,
    {
        share(&self.view)
    }
}

/// The applications of a published view go strictly in order: by label,
/// ignoring ASCII case, then by identity.  So no identity comes twice and
/// no two entries tie.
pub proof fn law_view_applications_strictly_ordered(
    g: &Graph,
    tap_id: Option<u32>,
    apps: Seq<ApplicationView>,
)
    requires
        merges(|e: AppEntry| offered(g, tap_id, e), app_entries(apps)),
        in_rank_order(apps),
    ensures
        forall|i: int, j: int|
            #![trigger apps[i], apps[j]]
            0 <= i < j < apps.len() ==> app_before(app_entry(apps[i]), app_entry(apps[j])),
{
    let es = app_entries(apps);
    assert forall|i: int, j: int|
        #![trigger apps[i], apps[j]]
        0 <= i < j < apps.len() implies app_before(app_entry(apps[i]), app_entry(apps[j])) by {
        let a = app_entry(apps[i]);
        let b = app_entry(apps[j]);
        assert(es[i] == a && es[j] == b);
        assert(a.0 != b.0);
        assert(!apps[j].before(&apps[i]));
        let (fa, fb) = (folded_codes(a.1), folded_codes(b.1));
        if fa != fb {
            lemma_lex_total(fa, fb);
        } else {
            let (ca, cb) = (codes(a.0), codes(b.0));
            if ca == cb {
                assert(a.0 =~= b.0) by {
                    assert(ca.len() == a.0.len() && cb.len() == b.0.len());
                    assert forall|k: int| 0 <= k < a.0.len() implies a.0[k] == b.0[k] by {
                        assert(ca[k] == cb[k]);
                        let (x, y) = (a.0[k], b.0[k]);
                        let u = x as u32;
                        assert(u == y as u32);
                        vstd::utf8::char_u32_cast(x, u);
                        vstd::utf8::char_u32_cast(y, u);
                    }
                }
            }
            lemma_lex_total(ca, cb);
        }
    }
}

/// A playback stream with an identity offers its application under the
/// application's name when the node has one; without one, under the node's
/// description; without both, under the identity.  The entry is active when
/// the stream plays somewhere other than the tap.
pub proof fn law_application_label(g: &Graph, tap_id: Option<u32>, k: u32)
    requires
        g.wf(),
        g.nodes@.contains_key(k),
        g.nodes@[k]@.kind == NodeKind::Playback,
        g.nodes@[k]@.identity is Some,
    ensures
        ({
            let n = g.nodes@[k]@;
            let identity = n.identity->0;
            let label = match n.application_name {
                Some(a) => a,
                None => match n.description {
                    Some(d) => d,
                    None => identity,
                },
            };
            offered(g, tap_id, (identity, label, has_route_spec(g.links@, k, tap_id, true)))
        }),
{
    assert(g.nodes@[k].id == k);
    let n = g.nodes@[k]@;
    let identity = n.identity->0;
    let label = match n.application_name {
        Some(a) => a,
        None => match n.description {
            Some(d) => d,
            None => identity,
        },
    };
    assert(playback_entry(g.nodes@[k]@, g.links@, tap_id) == Some(
        (identity, label, has_route_spec(g.links@, k, tap_id, true)),
    ));
}

} // verus!
