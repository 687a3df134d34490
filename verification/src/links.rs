//! Keeping the links that the backend owns in line with the links it
//! wants: which to drop, which to create, and when to try again after a
//! failure.
use crate::pairing::{pair_ports_by_channel, pairing_spec};
use crate::search::lemma_contains_push;
use crate::registry::{loopback_ports_spec, Direction, GraphPort, LinkSpec, NodeInfo};
use crate::transport::{defer_retry, next_retry_delay, RESOURCE_RETRY_MAX_NS};
use vstd::prelude::*;

verus! {

/// The shortest wait before links are tried again, in nanoseconds.
pub const RESOURCE_RETRY_MIN_NS: u64 = 1_000_000_000;

/// The links that existing links should become: those to drop, in the
/// order they exist, and those to create, in the order they are wanted.
#[derive(Debug, Clone, PartialEq, Eq)]
pub struct LinkChanges {
    pub remove: Vec<LinkSpec>,
    pub create: Vec<LinkSpec>,
}

/// The existing links that are no longer wanted.
pub open spec fn links_to_remove(active: Seq<LinkSpec>, desired: Seq<LinkSpec>) -> Seq<LinkSpec> {
    active.filter(|l: LinkSpec| !desired.contains(l))
}

/// The wanted links that do not exist yet, each once, in the order they
/// are first wanted.
pub open spec fn links_to_create(active: Seq<LinkSpec>, desired: Seq<LinkSpec>) -> Seq<LinkSpec>
    decreases desired.len(),
{
    if desired.len() == 0 {
        Seq::empty()
    } else {
        let rest = links_to_create(active, desired.drop_last());
        let l = desired.last();
        if active.contains(l) || desired.drop_last().contains(l) {
            rest
        } else {
            rest.push(l)
        }
    }
}

fn has_link(links: &Vec<LinkSpec>, l: LinkSpec, upto: usize) -> (r: bool)
    requires
        upto <= links@.len(),
    ensures
        r == links@.take(upto as int).contains(l),
{
    let mut i: usize = 0;
    while i < upto
        invariant
            i <= upto <= links@.len(),
            forall|k: int| 0 <= k < i ==> links@[k] != l,
        decreases upto - i,
    {
        if links[i] == l {
            proof {
                assert(links@.take(upto as int)[i as int] == l);
            }
            return true;
        }
        i += 1;
    }
    proof {
        if links@.take(upto as int).contains(l) {
            let k = choose|k: int| 0 <= k < upto && links@.take(upto as int)[k] == l;
            assert(links@[k] == l);
        }
    }
    false
}

/// The links to create are the wanted links that do not exist, each once.
pub proof fn lemma_links_to_create(active: Seq<LinkSpec>, desired: Seq<LinkSpec>)
    ensures
        forall|l: LinkSpec| #[trigger]
            links_to_create(active, desired).contains(l) <==> (desired.contains(l)
                && !active.contains(l)),
        links_to_create(active, desired).no_duplicates(),
    decreases desired.len(),
{
    if desired.len() > 0 {
        let d = desired.drop_last();
        let l = desired.last();
        lemma_links_to_create(active, d);
        assert(desired =~= d.push(l));
        lemma_contains_push(d, l);
        let rest = links_to_create(active, d);
        if !(active.contains(l) || d.contains(l)) {
            lemma_contains_push(rest, l);
            assert forall|i: int, j: int|
                0 <= i < rest.push(l).len() && 0 <= j < rest.push(l).len() && i != j implies
                rest.push(l)[i] != rest.push(l)[j] by {
                if i == rest.len() {
                    assert(rest.contains(rest.push(l)[j]));
                } else if j == rest.len() {
                    assert(rest.contains(rest.push(l)[i]));
                }
            }
        }
    }
}

/// Applying the changes leaves exactly the wanted links: the existing
/// links that are not removed, together with the created ones, are the
/// wanted links; nothing is created that exists already, and nothing twice.
pub proof fn law_link_changes_reach_desired(active: Seq<LinkSpec>, desired: Seq<LinkSpec>)
    ensures
        forall|l: LinkSpec|
            ((active.contains(l) && !links_to_remove(active, desired).contains(l))
                || links_to_create(active, desired).contains(l)) <==> desired.contains(l),
        forall|l: LinkSpec| #[trigger]
            links_to_create(active, desired).contains(l) ==> !active.contains(l),
        links_to_create(active, desired).no_duplicates(),
{
    lemma_links_to_create(active, desired);
    let pred = |l: LinkSpec| !desired.contains(l);
    broadcast use vstd::seq_lib::group_filter_ensures;

    assert forall|l: LinkSpec|
        ((active.contains(l) && !links_to_remove(active, desired).contains(l))
            || links_to_create(active, desired).contains(l)) <==> desired.contains(l) by {
        if active.contains(l) && !desired.contains(l) {
            let i = choose|i: int| 0 <= i < active.len() && active[i] == l;
            assert(pred(active[i]));
        }
        if links_to_remove(active, desired).contains(l) {
            let i = choose|i: int|
                0 <= i < links_to_remove(active, desired).len() && links_to_remove(
                    active,
                    desired,
                )[i] == l;
            assert(pred(links_to_remove(active, desired)[i]));
        }
    }
}

/// What turns the `active` links into the `desired` ones.
pub fn link_changes(active: &Vec<LinkSpec>, desired: &Vec<LinkSpec>) -> (r: LinkChanges)
    ensures
        r.remove@ == links_to_remove(active@, desired@),
        r.create@ == links_to_create(active@, desired@),
{
    let ghost pred = |l: LinkSpec| !desired@.contains(l);
    let mut remove: Vec<LinkSpec> = Vec::new();
    let mut i: usize = 0;
    while i < active.len()
        invariant
            i <= active@.len(),
            pred == (|l: LinkSpec| !desired@.contains(l)),
            remove@ == active@.take(i as int).filter(pred),
        decreases active@.len() - i,
    {
        let l = active[i];
        proof {
            assert(active@.take(i + 1).drop_last() =~= active@.take(i as int));
            reveal_with_fuel(Seq::filter, 1);
            assert(desired@.take(desired@.len() as int) =~= desired@);
        }
        if !has_link(desired, l, desired.len()) {
            remove.push(l);
        }
        i += 1;
    }
    proof {
        assert(active@.take(active@.len() as int) =~= active@);
        assert(active@.take(active@.len() as int) =~= active@);
    }
    let mut create: Vec<LinkSpec> = Vec::new();
    let mut j: usize = 0;
    while j < desired.len()
        invariant
            j <= desired@.len(),
            create@ == links_to_create(active@, desired@.take(j as int)),
        decreases desired@.len() - j,
    {
        let l = desired[j];
        proof {
            assert(desired@.take(j + 1).drop_last() =~= desired@.take(j as int));
            assert(desired@.take(j + 1).last() == l);
            assert(active@.take(active@.len() as int) =~= active@);
        }
        if !has_link(active, l, active.len()) && !has_link(desired, l, j) {
            create.push(l);
        }
        j += 1;
    }
    proof {
        assert(desired@.take(desired@.len() as int) =~= desired@);
    }
    LinkChanges { remove, create }
}

/// The links of a loopback from `source` to `target`: their loopback
/// ports paired by channel, none when either side has no ports.
pub open spec fn loopback_links_spec(
    source_id: u32,
    source_ports: Seq<GraphPort>,
    target_id: u32,
    target_ports: Seq<GraphPort>,
) -> Option<Seq<LinkSpec>> {
    let outs = loopback_ports_spec(source_ports, Direction::Output, true);
    let ins = loopback_ports_spec(target_ports, Direction::Input, false);
    if outs.len() == 0 || ins.len() == 0 {
        None
    } else {
        Some(
            pairing_spec(outs, ins).map_values(
                |p: (GraphPort, GraphPort)|
                    LinkSpec {
                        output_node: source_id,
                        output_port: p.0.port_id,
                        input_node: target_id,
                        input_port: p.1.port_id,
                    },
            ),
        )
    }
}

/// The links that loop `source`'s output back into `target`.
pub fn loopback_links(source: &NodeInfo, target: &NodeInfo) -> (r: Option<Vec<LinkSpec>>)
    ensures
        match r {
            Some(links) => loopback_links_spec(source.id, source@.ports, target.id, target@.ports)
                == Some(links@),
            None => loopback_links_spec(source.id, source@.ports, target.id, target@.ports) is None,
        },
{
    let outs = source.output_ports_for_loopback();
    let ins = target.input_ports_for_loopback();
    if outs.len() == 0 || ins.len() == 0 {
        return None;
    }
    let pairs = pair_ports_by_channel(outs.as_slice(), ins.as_slice());
    let ghost f = |p: (GraphPort, GraphPort)|
        LinkSpec {
            output_node: source.id,
            output_port: p.0.port_id,
            input_node: target.id,
            input_port: p.1.port_id,
        };
    let mut links: Vec<LinkSpec> = Vec::new();
    let mut i: usize = 0;
    while i < pairs.len()
        invariant
            i <= pairs@.len(),
            f == (|p: (GraphPort, GraphPort)|
                LinkSpec {
                    output_node: source.id,
                    output_port: p.0.port_id,
                    input_node: target.id,
                    input_port: p.1.port_id,
                }),
            links@ == pairs@.take(i as int).map_values(f),
        decreases pairs@.len() - i,
    {
        let (out, inp) = pairs[i];
        links.push(
            LinkSpec {
                output_node: source.id,
                output_port: out.port_id,
                input_node: target.id,
                input_port: inp.port_id,
            },
        );
        proof {
            assert(pairs@.take(i + 1).map_values(f) =~= pairs@.take(i as int).map_values(f).push(
                f(pairs@[i as int]),
            ));
        }
        i += 1;
    }
    proof {
        assert(pairs@.take(pairs@.len() as int) =~= pairs@);
    }
    Some(links)
}

/// What a loopback refresh does to the `active` links: with both ends
/// known and ports on both, the changes that lead to their loopback links;
/// otherwise every active link goes.
pub open spec fn refresh_spec(
    active: Seq<LinkSpec>,
    source: Option<NodeInfo>,
    target: Option<NodeInfo>,
) -> (Seq<LinkSpec>, Seq<LinkSpec>) {
    let wanted = match (source, target) {
        (Some(s), Some(t)) => loopback_links_spec(s.id, s@.ports, t.id, t@.ports),
        _ => None,
    };
    match wanted {
        Some(desired) => (links_to_remove(active, desired), links_to_create(active, desired)),
        None => (active, Seq::empty()),
    }
}

/// The changes that refresh a loopback from `source` to `target`, given
/// the `active` links: none are kept when an end or its ports are missing.
pub fn refresh_plan(active: &Vec<LinkSpec>, source: Option<&NodeInfo>, target: Option<&NodeInfo>) -> (r:
    LinkChanges)
    ensures
        (r.remove@, r.create@) == refresh_spec(
            active@,
            match source {
                Some(s) => Some(*s),
                None => None,
            },
            match target {
                Some(t) => Some(*t),
                None => None,
            },
        ),
{
    let wanted = match (source, target) {
        (Some(s), Some(t)) => loopback_links(s, t),
        _ => None,
    };
    match wanted {
        Some(desired) => link_changes(active, &desired),
        None => {
            let mut remove: Vec<LinkSpec> = Vec::new();
            let mut i: usize = 0;
            while i < active.len()
                invariant
                    i <= active@.len(),
                    remove@ == active@.take(i as int),
                decreases active@.len() - i,
            {
                remove.push(active[i]);
                proof {
                    assert(active@.take(i + 1) =~= active@.take(i as int).push(active@[i as int]));
                }
                i += 1;
            }
            proof {
                assert(active@.take(active@.len() as int) =~= active@);
            }
            LinkChanges { remove, create: Vec::new() }
        },
    }
}

/// How far an owned link got.
#[derive(Debug, Clone, Copy, PartialEq, Eq, Structural)]
pub enum OwnedLinkState {
    Pending,
    Established,
    Failed,
}

/// The links that the capture backend owns, with the retry schedule for
/// links that failed.
#[derive(Debug, Clone)]
pub struct OwnedLinks {
    pub desired: Vec<LinkSpec>,
    pub retry_at: Option<u64>,
    pub retry_delay: u64,
}

/// What to do with the owned links: which existing links to keep, and
/// which wanted links to create now.
#[derive(Debug, Clone, PartialEq, Eq)]
pub struct OwnedLinksStep {
    pub keep: Vec<LinkSpec>,
    pub create: Vec<LinkSpec>,
}

/// The existing links that stay: wanted and not failed.
pub open spec fn kept_links(
    links: Seq<(LinkSpec, OwnedLinkState)>,
    desired: Seq<LinkSpec>,
) -> Seq<(LinkSpec, OwnedLinkState)> {
    links.filter(
        |e: (LinkSpec, OwnedLinkState)| desired.contains(e.0) && e.1 != OwnedLinkState::Failed,
    )
}

/// Every kept link is established and there are as many as wanted.
pub open spec fn all_established(kept: Seq<(LinkSpec, OwnedLinkState)>, desired: Seq<LinkSpec>) -> bool {
    kept.len() == desired.len() && forall|i: int|
        0 <= i < kept.len() ==> (#[trigger] kept[i]).1 == OwnedLinkState::Established
}

/// The wanted links without a kept link, each once, in the order wanted.
pub open spec fn missing_links(kept: Seq<(LinkSpec, OwnedLinkState)>, desired: Seq<LinkSpec>) -> Seq<LinkSpec> {
    links_to_create(kept.map_values(|e: (LinkSpec, OwnedLinkState)| e.0), desired)
}

impl OwnedLinks {
    /// No links and no retry pending.
    pub fn new() -> (r: OwnedLinks)
        ensures
            r.desired@.len() == 0,
            r.retry_at is None,
            r.retry_delay == RESOURCE_RETRY_MIN_NS,
    {
        OwnedLinks { desired: Vec::new(), retry_at: None, retry_delay: RESOURCE_RETRY_MIN_NS }
    }

    /// Forgets every link and any retry.
    pub fn clear(&mut self)
        ensures
            final(self).desired@.len() == 0,
            final(self).retry_at is None,
            final(self).retry_delay == RESOURCE_RETRY_MIN_NS,
    {
        self.desired = Vec::new();
        self.retry_at = None;
        self.retry_delay = RESOURCE_RETRY_MIN_NS;
    }

    /// Whether a retry is due at `now`.
    pub fn retry_due(&self, now: u64) -> (r: bool)
        ensures
            r == (self.retry_at matches Some(deadline) && now >= deadline),
    {
        match self.retry_at {
            Some(deadline) => now >= deadline,
            None => false,
        }
    }

    /// Takes the wanted links `desired` at `now`, given the existing links
    /// and their states.  A new set of wanted links resets the retry
    /// schedule.  Existing links stay when wanted and not failed.  When all
    /// wanted links are established the schedule resets; otherwise, while a
    /// retry is scheduled for later, nothing is created.  Else the retry is
    /// consumed and every wanted link without a kept link is to be created.
    pub fn apply(
        &mut self,
        links: &Vec<(LinkSpec, OwnedLinkState)>,
        desired: Vec<LinkSpec>,
        now: u64,
    ) -> (r: OwnedLinksStep)
        ensures
            final(self).desired@ == desired@,
            ({
                let kept = kept_links(links@, desired@);
                let reset = old(self).desired@ != desired@;
                let retry_at = if reset {
                    None
                } else {
                    old(self).retry_at
                };
                let delay = if reset {
                    RESOURCE_RETRY_MIN_NS
                } else {
                    old(self).retry_delay
                };
                let established = all_established(kept, desired@);
                let waiting = !established && (retry_at matches Some(deadline) && now < deadline);
                &&& r.keep@ == kept.map_values(|e: (LinkSpec, OwnedLinkState)| e.0)
                &&& final(self).retry_delay == if established {
                    RESOURCE_RETRY_MIN_NS
                } else {
                    delay
                }
                &&& if waiting {
                    &&& r.create@.len() == 0
                    &&& final(self).retry_at == retry_at
                } else {
                    &&& r.create@ == missing_links(kept, desired@)
                    &&& final(self).retry_at is None
                }
            }),
    {
        let reset = !same_links(&self.desired, &desired);
        if reset {
            self.retry_at = None;
            self.retry_delay = RESOURCE_RETRY_MIN_NS;
        }
        self.desired = desired;
        let ghost pred = |e: (LinkSpec, OwnedLinkState)|
            self.desired@.contains(e.0) && e.1 != OwnedLinkState::Failed;
        let mut kept: Vec<(LinkSpec, OwnedLinkState)> = Vec::new();
        let mut i: usize = 0;
        while i < links.len()
            invariant
                i <= links@.len(),
                pred == (|e: (LinkSpec, OwnedLinkState)|
                    self.desired@.contains(e.0) && e.1 != OwnedLinkState::Failed),
                kept@ == links@.take(i as int).filter(pred),
            decreases links@.len() - i,
        {
            let e = links[i];
            proof {
                assert(links@.take(i + 1).drop_last() =~= links@.take(i as int));
                reveal_with_fuel(Seq::filter, 1);
                assert(self.desired@.take(self.desired@.len() as int) =~= self.desired@);
            }
            if e.1 != OwnedLinkState::Failed && has_link(&self.desired, e.0, self.desired.len()) {
                kept.push(e);
            }
            i += 1;
        }
        proof {
            assert(links@.take(links@.len() as int) =~= links@);
        }
        let mut keep: Vec<LinkSpec> = Vec::new();
        let mut established = kept.len() == self.desired.len();
        let ghost first = |e: (LinkSpec, OwnedLinkState)| e.0;
        let mut k: usize = 0;
        while k < kept.len()
            invariant
                k <= kept@.len(),
                first == (|e: (LinkSpec, OwnedLinkState)| e.0),
                keep@ == kept@.take(k as int).map_values(first),
                established == (kept@.len() == self.desired@.len() && forall|j: int|
                    0 <= j < k ==> (#[trigger] kept@[j]).1 == OwnedLinkState::Established),
            decreases kept@.len() - k,
        {
            keep.push(kept[k].0);
            if kept[k].1 != OwnedLinkState::Established {
                established = false;
            }
            proof {
                assert(kept@.take(k + 1).map_values(first) =~= kept@.take(k as int).map_values(
                    first,
                ).push(first(kept@[k as int])));
            }
            k += 1;
        }
        proof {
            assert(kept@.take(kept@.len() as int) =~= kept@);
        }
        if established {
            self.retry_at = None;
            self.retry_delay = RESOURCE_RETRY_MIN_NS;
        } else {
            match self.retry_at {
                Some(deadline) => if now < deadline {
                    return OwnedLinksStep { keep, create: Vec::new() };
                },
                None => {},
            }
        }
        self.retry_at = None;
        let changes = link_changes(&keep, &self.desired);
        OwnedLinksStep { keep, create: changes.create }
    }

    /// Records that creating a link failed at `now`: a retry is scheduled
    /// unless one is due later; returns whether one was scheduled.
    pub fn link_failed(&mut self, now: u64) -> (r: bool)
        requires
            now + old(self).retry_delay <= u64::MAX,
        ensures
            final(self).desired@ == old(self).desired@,
            r == !(old(self).retry_at matches Some(deadline) && deadline > now),
            r ==> final(self).retry_at == Some((now + old(self).retry_delay) as u64)
                && final(self).retry_delay == next_retry_delay(old(self).retry_delay, RESOURCE_RETRY_MAX_NS),
            !r ==> final(self).retry_at == old(self).retry_at && final(self).retry_delay == old(
                self,
            ).retry_delay,
    {
        defer_retry(&mut self.retry_at, &mut self.retry_delay, now)
    }
}

/// Whether two link lists are equal.
pub(crate) fn same_links(a: &Vec<LinkSpec>, b: &Vec<LinkSpec>) -> (r: bool)
    ensures
        r == (a@ == b@),
{
    if a.len() != b.len() {
        return false;
    }
    let mut i: usize = 0;
    while i < a.len()
        invariant
            i <= a@.len(),
            a@.len() == b@.len(),
            forall|k: int| 0 <= k < i ==> a@[k] == b@[k],
        decreases a@.len() - i,
    {
        if a[i] != b[i] {
            proof {
                assert(a@[i as int] != b@[i as int]);
            }
            return false;
        }
        i += 1;
    }
    proof {
        assert(a@ =~= b@);
    }
    true
}

/// When the owned links are brought in line with the wanted ones, every
/// wanted link is either kept or created, nothing else is kept or
/// created, and nothing is created that is kept.
pub proof fn law_owned_links_cover_desired(
    links: Seq<(LinkSpec, OwnedLinkState)>,
    desired: Seq<LinkSpec>,
)
    ensures
        ({
            let kept = kept_links(links, desired).map_values(|e: (LinkSpec, OwnedLinkState)| e.0);
            let created = missing_links(kept_links(links, desired), desired);
            &&& forall|l: LinkSpec| (kept.contains(l) || created.contains(l)) <==> desired.contains(l)
            &&& forall|l: LinkSpec| #[trigger] created.contains(l) ==> !kept.contains(l)
            &&& created.no_duplicates()
        }),
{
    broadcast use vstd::seq_lib::group_filter_ensures;

    let pred = |e: (LinkSpec, OwnedLinkState)| desired.contains(e.0) && e.1 != OwnedLinkState::Failed;
    let k = kept_links(links, desired);
    let kept = k.map_values(|e: (LinkSpec, OwnedLinkState)| e.0);
    lemma_links_to_create(kept, desired);
    assert forall|l: LinkSpec| kept.contains(l) implies desired.contains(l) by {
        let i = choose|i: int| 0 <= i < kept.len() && kept[i] == l;
        assert(pred(k[i]));
    }
}

/// An owned link that exists, is still wanted and has not failed (it is
/// pending or established) is kept and not created again; and nothing is
/// kept but such a link.
pub proof fn law_live_wanted_links_are_kept(
    links: Seq<(LinkSpec, OwnedLinkState)>,
    desired: Seq<LinkSpec>,
    i: int,
    l: LinkSpec,
)
    requires
        0 <= i < links.len(),
    ensures
        ({
            let kept = kept_links(links, desired).map_values(|e: (LinkSpec, OwnedLinkState)| e.0);
            let created = missing_links(kept_links(links, desired), desired);
            &&& desired.contains(links[i].0) && (links[i].1 == OwnedLinkState::Pending || links[i].1
                == OwnedLinkState::Established) ==> kept.contains(links[i].0) && !created.contains(
                links[i].0,
            )
            &&& kept.contains(l) ==> desired.contains(l) && exists|j: int|
                0 <= j < links.len() && links[j].0 == l && links[j].1 != OwnedLinkState::Failed
        }),
{
    broadcast use vstd::seq_lib::group_filter_ensures;

    let pred = |e: (LinkSpec, OwnedLinkState)| desired.contains(e.0) && e.1 != OwnedLinkState::Failed;
    let k = kept_links(links, desired);
    let kept = k.map_values(|e: (LinkSpec, OwnedLinkState)| e.0);
    lemma_links_to_create(kept, desired);
    if desired.contains(links[i].0) && (links[i].1 == OwnedLinkState::Pending || links[i].1
        == OwnedLinkState::Established) {
        assert(pred(links[i]));
        links.lemma_filter_contains(pred, i);
        let j = choose|j: int| 0 <= j < k.len() && k[j] == links[i];
        assert(kept[j] == links[i].0);
    }
    if kept.contains(l) {
        let j = choose|j: int| 0 <= j < kept.len() && kept[j] == l;
        assert(pred(k[j]));
        assert(k.contains(k[j]));
        links.lemma_filter_contains_rev(pred, k[j]);
        let m = choose|m: int| 0 <= m < links.len() && links[m] == k[j];
        assert(links[m].0 == l);
    }
}

} // verus!
