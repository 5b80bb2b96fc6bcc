//! The mirroring logic: which nodes can be chosen, which links mirror the
//! chosen source to the chosen targets, and what has to be told to PipeWire
//! and to the user interface after each event.

use std::collections::HashMap;
use vstd::std_specs::iter::IteratorSpec;
use vstd::prelude::*;

use crate::candidate::{CandidateData, CandidateType};
use crate::messages::PipewireMessage;
use crate::types::{
    Direction, MediaType, Node, NodeType, NodeView, Port, PortView, find_by_label, has_id, index_of_id,
};

verus! {

broadcast use vstd::std_specs::hash::group_hash_axioms;

/// What the caller has to carry out after the graph manager handled an event.
#[derive(Clone, Copy, Debug, PartialEq, Eq, Structural)]
pub enum Action {
    /// The candidate lists changed: show the current ones.
    RefreshCandidates,
    /// Ask PipeWire to create a link between the ports, unless it exists.
    CreateLink { port_from: u32, port_to: u32 },
    /// Ask PipeWire to remove the link between the ports, if it exists.
    RemoveLink { port_from: u32, port_to: u32 },
    /// Show whether mirroring is going on, and to how many targets.
    SetStatus { mirroring: bool, target_count: u32 },
    /// Show or hide the banner that says a connection is being made.
    RevealBanner(bool),
    /// Show the mute state of a node.
    UpdateMute { node_id: u32, muted: bool },
}

/// Abstract contents of a [`GraphManager`].
pub struct ManagerView {
    pub nodes: Map<u32, NodeView>,
    /// As the bookkeeping writes it when a port is added: keyed by node id, holding a port id.
    pub port2node: Map<u32, u32>,
    pub source_id: Option<u32>,
    pub source_kind: Option<CandidateType>,
    /// The targets, in the order they were chosen.
    pub targets: Seq<u32>,
    /// The `(output port, input port)` links that mirroring asked for, in order.
    pub links: Seq<(u32, u32)>,
    /// Link ids that PipeWire reported for the links in `links`.
    pub link_ids: Map<u32, (u32, u32)>,
}

/// The labels of the left and right ports that a source of this type plays on.
pub open spec fn source_labels(kind: CandidateType) -> (Seq<char>, Seq<char>) {
    match kind {
        CandidateType::Device => ("monitor_FL"@, "monitor_FR"@),
        CandidateType::Application => ("output_FL"@, "output_FR"@),
    }
}

/// The ids of the ports of a node that carry the two labels, if it has both.
pub open spec fn port_pair(n: NodeView, left: Seq<char>, right: Seq<char>) -> Option<(u32, u32)> {
    match (n.port_by_label(left), n.port_by_label(right)) {
        (Some(a), Some(b)) => Some((a.id, b.id)),
        _ => None,
    }
}

/// Whether a node is offered as a source, and as which type.
pub open spec fn source_kind_of(n: NodeView) -> Option<CandidateType> {
    if n.has_label("output_FL"@) && n.has_label("output_FR"@) {
        Some(CandidateType::Application)
    } else if n.has_label("monitor_FL"@) && n.has_label("monitor_FR"@) {
        Some(CandidateType::Device)
    } else {
        None
    }
}

/// Whether a node is offered as a target.
pub open spec fn is_target_candidate(n: NodeView) -> bool {
    n.has_label("playback_FR"@) && n.has_label("playback_FL"@)
}

/// `links` followed by each element of `xs` that is not already there, in order.
pub open spec fn append_new<A>(links: Seq<A>, xs: Seq<A>) -> Seq<A>
    decreases xs.len(),
{
    if xs.len() == 0 {
        links
    } else {
        let l = append_new(links, xs.drop_last());
        if l.contains(xs.last()) {
            l
        } else {
            l.push(xs.last())
        }
    }
}

/// A request to create each link, in order.
pub open spec fn creates(links: Seq<(u32, u32)>) -> Seq<Action> {
    links.map_values(|p: (u32, u32)| Action::CreateLink { port_from: p.0, port_to: p.1 })
}

/// A request to remove each link, in order.
pub open spec fn removes(links: Seq<(u32, u32)>) -> Seq<Action> {
    links.map_values(|p: (u32, u32)| Action::RemoveLink { port_from: p.0, port_to: p.1 })
}

/// Whether a link ends at one of the given input ports.
pub open spec fn hits(l: (u32, u32), fl: Option<u32>, fr: Option<u32>) -> bool {
    fl == Some(l.1) || fr == Some(l.1)
}

/// The links to remove when a target goes, in the order of `links`; a link
/// appears once for each of the two ports it ends at.
pub open spec fn doomed(links: Seq<(u32, u32)>, fl: Option<u32>, fr: Option<u32>) -> Seq<(u32, u32)>
    decreases links.len(),
{
    if links.len() == 0 {
        Seq::empty()
    } else {
        let l = links.last();
        let rest = doomed(links.drop_last(), fl, fr);
        let a = if fl == Some(l.1) {
            rest.push(l)
        } else {
            rest
        };
        if fr == Some(l.1) {
            a.push(l)
        } else {
            a
        }
    }
}

/// The predicate that keeps every id but one.
pub open spec fn other_than(id: u32) -> spec_fn(u32) -> bool {
    |t: u32| t != id
}

/// The predicate that keeps the links that do not end at the given input ports.
pub open spec fn missing(fl: Option<u32>, fr: Option<u32>) -> spec_fn((u32, u32)) -> bool {
    |l: (u32, u32)| !hits(l, fl, fr)
}

impl ManagerView {
    pub open spec fn empty() -> ManagerView {
        ManagerView {
            nodes: Map::empty(),
            port2node: Map::empty(),
            source_id: None,
            source_kind: None,
            targets: Seq::empty(),
            links: Seq::empty(),
            link_ids: Map::empty(),
        }
    }

    /// Every node is stored under its own id with ports of distinct ids, and no
    /// target nor link is recorded twice.
    pub open spec fn wf(self) -> bool {
        &&& forall|k: u32| #[trigger]
            self.nodes.contains_key(k) ==> self.nodes[k].id == k && self.nodes[k].wf()
        &&& self.targets.no_duplicates()
        &&& self.links.no_duplicates()
    }

    /// The ports the source plays on, if a source is chosen, known and has both.
    pub open spec fn source_ports(self) -> Option<(u32, u32)> {
        match (self.source_id, self.source_kind) {
            (Some(id), Some(kind)) => if self.nodes.contains_key(id) {
                port_pair(self.nodes[id], source_labels(kind).0, source_labels(kind).1)
            } else {
                None
            },
            _ => None,
        }
    }

    /// The playback ports of a target, if it is known and has both.
    pub open spec fn target_ports(self, t: u32) -> Option<(u32, u32)> {
        if self.nodes.contains_key(t) {
            port_pair(self.nodes[t], "playback_FL"@, "playback_FR"@)
        } else {
            None
        }
    }

    /// The links that mirror the source ports to the given targets, left
    /// channel then right channel for each target in turn.
    pub open spec fn desired_links(self, sfl: u32, sfr: u32, targets: Seq<u32>) -> Seq<(u32, u32)>
        decreases targets.len(),
    {
        if targets.len() == 0 {
            Seq::empty()
        } else {
            let rest = self.desired_links(sfl, sfr, targets.drop_last());
            match self.target_ports(targets.last()) {
                Some((a, b)) => rest.push((sfl, a)).push((sfr, b)),
                None => rest,
            }
        }
    }

    /// The status shown to the user.
    pub open spec fn status(self) -> Action {
        Action::SetStatus {
            mirroring: self.source_id is Some && self.targets.len() > 0,
            target_count: self.targets.len() as u32,
        }
    }

    /// The links after mirroring was brought up to date.
    pub open spec fn updated_links(self) -> Seq<(u32, u32)> {
        match self.source_ports() {
            Some((sfl, sfr)) => append_new(self.links, self.desired_links(sfl, sfr, self.targets)),
            None => self.links,
        }
    }

    /// The state after mirroring was brought up to date.
    pub open spec fn links_updated(self) -> ManagerView {
        ManagerView { links: self.updated_links(), ..self }
    }

    /// What bringing mirroring up to date asks for: each new link, then the status.
    pub open spec fn update_actions(self) -> Seq<Action> {
        match self.source_ports() {
            Some(_) => creates(self.updated_links().skip(self.links.len() as int)).push(
                self.status(),
            ),
            None => Seq::empty(),
        }
    }

    pub open spec fn source_set(self, id: u32, kind: CandidateType) -> ManagerView {
        ManagerView { source_id: Some(id), source_kind: Some(kind), ..self }
    }

    pub open spec fn target_added(self, id: u32) -> ManagerView {
        ManagerView {
            targets: if self.targets.contains(id) {
                self.targets
            } else {
                self.targets.push(id)
            },
            ..self
        }
    }

    /// The playback ports of a known target, each if present.
    pub open spec fn target_left(self, id: u32) -> Option<u32> {
        match self.nodes[id].port_by_label("playback_FL"@) {
            Some(p) => Some(p.id),
            None => None,
        }
    }

    pub open spec fn target_right(self, id: u32) -> Option<u32> {
        match self.nodes[id].port_by_label("playback_FR"@) {
            Some(p) => Some(p.id),
            None => None,
        }
    }

    /// The links that go when the target goes.
    pub open spec fn target_links(self, id: u32) -> Seq<(u32, u32)> {
        if self.nodes.contains_key(id) {
            doomed(self.links, self.target_left(id), self.target_right(id))
        } else {
            Seq::empty()
        }
    }

    /// The state after a target was removed.
    pub open spec fn target_removed(self, id: u32) -> ManagerView {
        ManagerView {
            links: if self.nodes.contains_key(id) {
                self.links.filter(missing(self.target_left(id), self.target_right(id)))
            } else {
                self.links
            },
            targets: self.targets.filter(other_than(id)),
            ..self
        }
    }

    pub open spec fn source_cleared(self) -> ManagerView {
        ManagerView {
            links: Seq::empty(),
            link_ids: Map::empty(),
            source_id: None,
            source_kind: None,
            ..self
        }
    }

    pub open spec fn cleaned_up(self) -> ManagerView {
        ManagerView {
            links: Seq::empty(),
            link_ids: Map::empty(),
            targets: Seq::empty(),
            source_id: None,
            source_kind: None,
            ..self
        }
    }

    pub open spec fn node_added(self, id: u32, name: Seq<char>) -> ManagerView {
        ManagerView { nodes: self.nodes.insert(id, NodeView::fresh(name, id)), ..self }
    }

    pub open spec fn node_renamed(self, id: u32, name: Seq<char>, media_name: Seq<char>) -> ManagerView {
        ManagerView {
            nodes: if self.nodes.contains_key(id) {
                self.nodes.insert(id, NodeView { name, media_name, ..self.nodes[id] })
            } else {
                self.nodes
            },
            ..self
        }
    }

    pub open spec fn node_removed(self, id: u32) -> ManagerView {
        ManagerView { nodes: self.nodes.remove(id), ..self }
    }

    pub open spec fn port_added(
        self,
        id: u32,
        name: Seq<char>,
        node_id: u32,
        direction: Direction,
    ) -> ManagerView {
        if self.nodes.contains_key(node_id) {
            ManagerView {
                nodes: self.nodes.insert(
                    node_id,
                    self.nodes[node_id].with_port(
                        PortView { id, media_type: MediaType::Unknown, direction, label: name },
                    ),
                ),
                port2node: self.port2node.insert(node_id, id),
                ..self
            }
        } else {
            self
        }
    }

    /// The node whose port changed format, as the bookkeeping finds it.
    pub open spec fn format_node(self, id: u32) -> Option<u32> {
        match self.port2node.get(id) {
            Some(node_id) => if self.nodes.contains_key(node_id) {
                Some(node_id)
            } else {
                None
            },
            None => None,
        }
    }

    pub open spec fn port_format_changed(self, id: u32, media_type: MediaType) -> ManagerView {
        match self.format_node(id) {
            Some(node_id) => {
                let n = self.nodes[node_id];
                if has_id(n.ports, id) {
                    let i = index_of_id(n.ports, id);
                    ManagerView {
                        nodes: self.nodes.insert(
                            node_id,
                            NodeView {
                                ports: n.ports.update(i, PortView { media_type, ..n.ports[i] }),
                                ..n
                            },
                        ),
                        ..self
                    }
                } else {
                    self
                }
            },
            None => self,
        }
    }

    pub open spec fn port_removed(self, id: u32, node_id: u32) -> ManagerView {
        ManagerView {
            nodes: if self.nodes.contains_key(node_id) {
                self.nodes.insert(node_id, self.nodes[node_id].without_port(id))
            } else {
                self.nodes
            },
            ..self
        }
    }

    pub open spec fn link_added(self, id: u32, port_from: u32, port_to: u32) -> ManagerView {
        ManagerView {
            link_ids: if self.links.contains((port_from, port_to)) {
                self.link_ids.insert(id, (port_from, port_to))
            } else {
                self.link_ids
            },
            ..self
        }
    }

    pub open spec fn link_removed(self, id: u32) -> ManagerView {
        ManagerView { link_ids: self.link_ids.remove(id), ..self }
    }

    /// What a removal of the link with the id asks for: the link again, if it
    /// was one of the mirroring links and is still wanted.
    pub open spec fn link_removal_actions(self, id: u32) -> Seq<Action> {
        if self.link_ids.contains_key(id) && self.links.contains(self.link_ids[id]) {
            seq![Action::CreateLink { port_from: self.link_ids[id].0, port_to: self.link_ids[id].1 }]
        } else {
            Seq::empty()
        }
    }
}

/// Unfolds `append_new` at its last element.
pub proof fn lemma_append_new_push<A>(l: Seq<A>, d: Seq<A>, x: A)
    ensures
        append_new(l, d.push(x)) == (if append_new(l, d).contains(x) {
            append_new(l, d)
        } else {
            append_new(l, d).push(x)
        }),
{
    assert(d.push(x).drop_last() =~= d);
}

/// `append_new` keeps what was there, in place, and only adds elements of `xs`.
pub proof fn lemma_append_new_shape<A>(l: Seq<A>, xs: Seq<A>)
    ensures
        append_new(l, xs).len() >= l.len(),
        append_new(l, xs).take(l.len() as int) == l,
        forall|x: A| #[trigger] xs.contains(x) ==> append_new(l, xs).contains(x),
        forall|x: A| #[trigger] append_new(l, xs).contains(x) ==> l.contains(x) || xs.contains(x),
        l.no_duplicates() ==> append_new(l, xs).no_duplicates(),
    decreases xs.len(),
{
    if xs.len() == 0 {
        assert(l.take(l.len() as int) =~= l);
    } else {
        let d = xs.drop_last();
        let x = xs.last();
        lemma_append_new_shape(l, d);
        let a = append_new(l, d);
        assert(xs =~= d.push(x));
        assert forall|y: A| #[trigger] xs.contains(y) implies append_new(l, xs).contains(y) by {
            let k = choose|k: int| 0 <= k < xs.len() && xs[k] == y;
            if k < xs.len() - 1 {
                assert(d[k] == y);
                assert(d.contains(y));
            }
            if !a.contains(x) {
                assert(a.push(x)[a.len() as int] == x);
                if a.contains(y) {
                    let j = choose|j: int| 0 <= j < a.len() && a[j] == y;
                    assert(a.push(x)[j] == y);
                }
            }
        }
        assert forall|y: A| #[trigger] append_new(l, xs).contains(y) implies l.contains(y)
            || xs.contains(y) by {
            if !a.contains(x) {
                let j = choose|j: int| 0 <= j < a.len() + 1 && a.push(x)[j] == y;
                if j < a.len() {
                    assert(a[j] == y);
                    assert(a.contains(y));
                } else {
                    assert(xs[xs.len() - 1] == y);
                }
            }
            if a.contains(y) && !l.contains(y) {
                assert(d.contains(y));
                let k = choose|k: int| 0 <= k < d.len() && d[k] == y;
                assert(xs[k] == y);
            }
        }
        if !a.contains(x) {
            assert(a.push(x).take(l.len() as int) =~= a.take(l.len() as int));
        }
    }
}

/// Adding elements that are all present already changes nothing.
pub proof fn lemma_append_new_present<A>(l: Seq<A>, xs: Seq<A>)
    requires
        forall|x: A| #[trigger] xs.contains(x) ==> l.contains(x),
    ensures
        append_new(l, xs) == l,
    decreases xs.len(),
{
    if xs.len() > 0 {
        let d = xs.drop_last();
        assert forall|x: A| #[trigger] d.contains(x) implies l.contains(x) by {
            let k = choose|k: int| 0 <= k < d.len() && d[k] == x;
            assert(xs[k] == x);
            assert(xs.contains(x));
        }
        lemma_append_new_present(l, d);
        assert(xs[xs.len() - 1] == xs.last());
        assert(xs.contains(xs.last()));
    }
}

/// What a filter keeps: exactly the elements that pass, without repeating any.
pub proof fn lemma_filter<A>(s: Seq<A>, p: spec_fn(A) -> bool)
    ensures
        forall|x: A| #[trigger] s.filter(p).contains(x) <==> s.contains(x) && p(x),
        s.no_duplicates() ==> s.filter(p).no_duplicates(),
    decreases s.len(),
{
    reveal(Seq::filter);
    if s.len() > 0 {
        let d = s.drop_last();
        lemma_filter(d, p);
        let f = d.filter(p);
        assert forall|x: A| #[trigger] s.filter(p).contains(x) <==> s.contains(x) && p(x) by {
            if s.contains(x) && p(x) {
                let k = choose|k: int| 0 <= k < s.len() && s[k] == x;
                if k < s.len() - 1 {
                    assert(d[k] == x);
                    assert(f.contains(x));
                    if p(s.last()) {
                        let j = choose|j: int| 0 <= j < f.len() && f[j] == x;
                        assert(f.push(s.last())[j] == x);
                    }
                } else {
                    assert(f.push(s.last())[f.len() as int] == x);
                }
            }
            if s.filter(p).contains(x) {
                if p(s.last()) {
                    let j = choose|j: int| 0 <= j < f.len() + 1 && f.push(s.last())[j] == x;
                    if j < f.len() {
                        assert(f[j] == x);
                        assert(f.contains(x));
                        let k = choose|k: int| 0 <= k < d.len() && d[k] == x;
                        assert(s[k] == x);
                    } else {
                        assert(s[s.len() - 1] == x);
                    }
                } else {
                    let k = choose|k: int| 0 <= k < d.len() && d[k] == x;
                    assert(s[k] == x);
                }
            }
        }
        if s.no_duplicates() && p(s.last()) {
            assert(d.no_duplicates()) by {
                assert forall|i: int, j: int|
                    0 <= i < d.len() && 0 <= j < d.len() && i != j implies d[i] != d[j] by {
                    assert(d[i] == s[i] && d[j] == s[j]);
                }
            }
            assert(!f.contains(s.last())) by {
                if f.contains(s.last()) {
                    let k = choose|k: int| 0 <= k < d.len() && d[k] == s.last();
                    assert(s[k] == s[s.len() - 1]);
                }
            }
            let g = f.push(s.last());
            assert forall|i: int, j: int|
                0 <= i < g.len() && 0 <= j < g.len() && i != j implies g[i] != g[j] by {
                if i < f.len() && j < f.len() {
                } else if i < f.len() {
                    assert(f.contains(g[i]));
                } else if j < f.len() {
                    assert(f.contains(g[j]));
                }
            }
        } else if s.no_duplicates() {
            assert(d.no_duplicates()) by {
                assert forall|i: int, j: int|
                    0 <= i < d.len() && 0 <= j < d.len() && i != j implies d[i] != d[j] by {
                    assert(d[i] == s[i] && d[j] == s[j]);
                }
            }
        }
    }
}

/// The left port of a pair, if there is one.
pub open spec fn first_port(p: Option<(u32, u32)>) -> u32 {
    match p {
        Some((a, _)) => a,
        None => 0,
    }
}

/// The right port of a pair, if there is one.
pub open spec fn second_port(p: Option<(u32, u32)>) -> u32 {
    match p {
        Some((_, b)) => b,
        None => 0,
    }
}

/// The wanted links include both links of every target that has its ports.
pub proof fn lemma_desired_contains(v: ManagerView, sfl: u32, sfr: u32, targets: Seq<u32>, i: int)
    requires
        0 <= i < targets.len(),
        v.target_ports(targets[i]) is Some,
    ensures
        v.desired_links(sfl, sfr, targets).contains((sfl, first_port(v.target_ports(targets[i])))),
        v.desired_links(sfl, sfr, targets).contains((sfr, second_port(v.target_ports(targets[i])))),
    decreases targets.len(),
{
    let d = targets.drop_last();
    let rest = v.desired_links(sfl, sfr, d);
    let full = v.desired_links(sfl, sfr, targets);
    if i < targets.len() - 1 {
        assert(d[i] == targets[i]);
        lemma_desired_contains(v, sfl, sfr, d, i);
        let a = (sfl, first_port(v.target_ports(targets[i])));
        let b = (sfr, second_port(v.target_ports(targets[i])));
        let ka = choose|k: int| 0 <= k < rest.len() && rest[k] == a;
        let kb = choose|k: int| 0 <= k < rest.len() && rest[k] == b;
        match v.target_ports(targets.last()) {
            Some((x, y)) => {
                assert(full[ka] == a);
                assert(full[kb] == b);
            },
            None => {},
        }
    } else {
        assert(targets.last() == targets[i]);
        assert(full[full.len() - 2] == (sfl, first_port(v.target_ports(targets[i]))));
        assert(full[full.len() - 1] == (sfr, second_port(v.target_ports(targets[i]))));
    }
}

/// The links removed with a target are exactly the mirroring links that end at its ports.
pub proof fn lemma_doomed_contains(links: Seq<(u32, u32)>, fl: Option<u32>, fr: Option<u32>)
    ensures
        forall|l: (u32, u32)| #[trigger]
            doomed(links, fl, fr).contains(l) <==> links.contains(l) && hits(l, fl, fr),
    decreases links.len(),
{
    if links.len() > 0 {
        let d = links.drop_last();
        let x = links.last();
        lemma_doomed_contains(d, fl, fr);
        let rest = doomed(d, fl, fr);
        let a = if fl == Some(x.1) {
            rest.push(x)
        } else {
            rest
        };
        let full = doomed(links, fl, fr);
        assert forall|l: (u32, u32)| #[trigger]
            full.contains(l) <==> links.contains(l) && hits(l, fl, fr) by {
            if links.contains(l) && hits(l, fl, fr) {
                let k = choose|k: int| 0 <= k < links.len() && links[k] == l;
                if k < links.len() - 1 {
                    assert(d[k] == l);
                    assert(rest.contains(l));
                    let j = choose|j: int| 0 <= j < rest.len() && rest[j] == l;
                    assert(a[j] == l);
                    assert(full[j] == l);
                } else {
                    if fr == Some(x.1) {
                        assert(full[full.len() - 1] == l);
                    } else {
                        assert(a[a.len() - 1] == l);
                    }
                }
            }
            if full.contains(l) {
                let j = choose|j: int| 0 <= j < full.len() && full[j] == l;
                if j < rest.len() {
                    assert(rest[j] == l);
                    assert(rest.contains(l));
                    let k = choose|k: int| 0 <= k < d.len() && d[k] == l;
                    assert(links[k] == l);
                } else {
                    assert(l == x);
                    assert(links[links.len() - 1] == l);
                }
            }
        }
    }
}

/// Bringing mirroring up to date twice is the same as doing it once: the
/// second time asks for no new link, only for the status.
pub proof fn law_update_links_idempotent(v: ManagerView)
    ensures
        v.links_updated().links_updated() == v.links_updated(),
        v.source_ports() is Some ==> v.links_updated().update_actions() == seq![v.status()],
{
    let w = v.links_updated();
    assert(w.source_ports() == v.source_ports());
    match v.source_ports() {
        Some((sfl, sfr)) => {
            let d = v.desired_links(sfl, sfr, v.targets);
            assert(w.desired_links(sfl, sfr, v.targets) == d) by {
                lemma_desired_same_nodes(v, w, sfl, sfr, v.targets);
            }
            lemma_append_new_shape(v.links, d);
            lemma_append_new_present(append_new(v.links, d), d);
            assert(w.updated_links() == w.links);
            assert(w.links.skip(w.links.len() as int) =~= Seq::<(u32, u32)>::empty());
            assert(creates(Seq::<(u32, u32)>::empty()) =~= Seq::<Action>::empty());
            assert(w.update_actions() =~= seq![v.status()]);
        },
        None => {},
    }
}

/// The wanted links depend on the nodes only, not on the links already there.
pub proof fn lemma_desired_same_nodes(
    v: ManagerView,
    w: ManagerView,
    sfl: u32,
    sfr: u32,
    targets: Seq<u32>,
)
    requires
        v.nodes == w.nodes,
    ensures
        v.desired_links(sfl, sfr, targets) == w.desired_links(sfl, sfr, targets),
    decreases targets.len(),
{
    if targets.len() > 0 {
        lemma_desired_same_nodes(v, w, sfl, sfr, targets.drop_last());
    }
}

/// After mirroring is brought up to date, both links of every chosen target
/// that has its playback ports are in place, the links that were there stay
/// first and in order, and no link is recorded twice.
pub proof fn law_update_links_complete(v: ManagerView, t: u32)
    requires
        v.wf(),
        v.source_ports() is Some,
        v.targets.contains(t),
        v.target_ports(t) is Some,
    ensures
        v.updated_links().contains((first_port(v.source_ports()), first_port(v.target_ports(t)))),
        v.updated_links().contains((second_port(v.source_ports()), second_port(v.target_ports(t)))),
        v.updated_links().take(v.links.len() as int) == v.links,
        v.links_updated().wf(),
{
    let sfl = first_port(v.source_ports());
    let sfr = second_port(v.source_ports());
    let d = v.desired_links(sfl, sfr, v.targets);
    let i = choose|i: int| 0 <= i < v.targets.len() && v.targets[i] == t;
    lemma_desired_contains(v, sfl, sfr, v.targets, i);
    lemma_append_new_shape(v.links, d);
}

/// Whether a link joins the left source port to the left playback port, or
/// the right to the right, of a target with these playback ports.
pub open spec fn mirror_pair(ports: Option<(u32, u32)>, sfl: u32, sfr: u32, l: (u32, u32)) -> bool {
    match ports {
        Some((a, b)) => l == (sfl, a) || l == (sfr, b),
        None => false,
    }
}

/// Every wanted link joins a source port to the matching playback port of a
/// chosen target: the left source port to a left playback port, the right to a right.
pub proof fn lemma_desired_only(v: ManagerView, sfl: u32, sfr: u32, targets: Seq<u32>, l: (u32, u32))
    requires
        v.desired_links(sfl, sfr, targets).contains(l),
    ensures
        exists|i: int|
            0 <= i < targets.len() && mirror_pair(#[trigger] v.target_ports(targets[i]), sfl, sfr, l),
    decreases targets.len(),
{
    let d = targets.drop_last();
    let rest = v.desired_links(sfl, sfr, d);
    let k = choose|k: int| 0 <= k < v.desired_links(sfl, sfr, targets).len() && v.desired_links(sfl, sfr, targets)[k] == l;
    if k < rest.len() {
        assert(rest[k] == l);
        lemma_desired_only(v, sfl, sfr, d, l);
        let i = choose|i: int|
            0 <= i < d.len() && mirror_pair(#[trigger] v.target_ports(d[i]), sfl, sfr, l);
        assert(targets[i] == d[i]);
    } else {
        let i = targets.len() - 1;
        assert(targets[i] == targets.last());
    }
}

/// Bringing mirroring up to date adds only links from a source port to the
/// playback port of the same side of a chosen target, and asks PipeWire to
/// create exactly the links it adds, in order, before showing the status.
pub proof fn law_update_links_adds_only_mirror_pairs(v: ManagerView, l: (u32, u32))
    requires
        v.source_ports() is Some,
        v.updated_links().contains(l),
        !v.links.contains(l),
    ensures
        exists|t: u32|
            v.targets.contains(t) && mirror_pair(
                #[trigger] v.target_ports(t),
                first_port(v.source_ports()),
                second_port(v.source_ports()),
                l,
            ),
        v.update_actions() == creates(v.updated_links().skip(v.links.len() as int)).push(v.status()),
{
    let sfl = first_port(v.source_ports());
    let sfr = second_port(v.source_ports());
    let d = v.desired_links(sfl, sfr, v.targets);
    lemma_append_new_shape(v.links, d);
    lemma_desired_only(v, sfl, sfr, v.targets, l);
    let i = choose|i: int|
        0 <= i < v.targets.len() && mirror_pair(#[trigger] v.target_ports(v.targets[i]), sfl, sfr, l);
    assert(v.targets.contains(v.targets[i]));
}

/// Without a source whose two ports are known, bringing mirroring up to date
/// changes nothing and asks for nothing.
pub proof fn law_update_links_without_source(v: ManagerView)
    requires
        v.source_ports() is None,
    ensures
        v.links_updated() == v,
        v.update_actions() == Seq::<Action>::empty(),
{
}

/// The status shows mirroring exactly when a source is chosen and at least
/// one target is chosen, and counts the targets; with no target it never
/// shows mirroring.
pub proof fn law_status_mirroring(v: ManagerView)
    ensures
        v.status() matches Action::SetStatus { mirroring, target_count } && mirroring == (
        v.source_id is Some && v.targets.len() > 0) && target_count == v.targets.len() as u32,
        v.targets.len() == 0 ==> v.status() matches Action::SetStatus { mirroring: false, .. },
{
}

/// Choosing a source while no target is chosen asks for no link and shows
/// that nothing is mirrored, when the source's ports are known; otherwise it
/// asks for nothing.
pub proof fn law_source_without_targets(v: ManagerView, id: u32, kind: CandidateType)
    requires
        v.targets.len() == 0,
    ensures
        v.source_set(id, kind).source_ports() is Some ==> v.source_set(id, kind).update_actions()
            == seq![Action::SetStatus { mirroring: false, target_count: 0 }],
        v.source_set(id, kind).source_ports() is None ==> v.source_set(id, kind).update_actions()
            == Seq::<Action>::empty(),
        v.source_set(id, kind).links_updated().links == v.links,
{
    let w = v.source_set(id, kind);
    match w.source_ports() {
        Some((sfl, sfr)) => {
            assert(w.desired_links(sfl, sfr, w.targets) == Seq::<(u32, u32)>::empty());
            assert(w.updated_links() == v.links);
            assert(v.links.skip(v.links.len() as int) =~= Seq::<(u32, u32)>::empty());
            assert(creates(Seq::<(u32, u32)>::empty()) =~= Seq::<Action>::empty());
            assert(w.update_actions() =~= seq![
                Action::SetStatus { mirroring: false, target_count: 0 },
            ]);
        },
        None => {},
    }
}

/// Removing a link forgets that link id alone: every other link id is still
/// known, and its later removal is answered as it would have been.
pub proof fn law_link_removal_forgets_only_that_id(v: ManagerView, id: u32, j: u32)
    ensures
        !v.link_removed(id).link_ids.contains_key(id),
        j != id ==> v.link_removed(id).link_ids.get(j) == v.link_ids.get(j),
        j != id ==> v.link_removed(id).link_removal_actions(j) == v.link_removal_actions(j),
        v.link_removed(id).links == v.links,
{
}

/// When two mirroring links that are still wanted are lost one after the
/// other, each is asked for again.
pub proof fn law_both_lost_links_recreated(v: ManagerView, a: u32, b: u32)
    requires
        a != b,
        v.link_ids.contains_key(a),
        v.link_ids.contains_key(b),
        v.links.contains(v.link_ids[a]),
        v.links.contains(v.link_ids[b]),
    ensures
        v.link_removal_actions(a) == seq![
            Action::CreateLink { port_from: v.link_ids[a].0, port_to: v.link_ids[a].1 },
        ],
        v.link_removed(a).link_removal_actions(b) == seq![
            Action::CreateLink { port_from: v.link_ids[b].0, port_to: v.link_ids[b].1 },
        ],
{
}

/// A search by label finds a port exactly when some port carries the label.
pub proof fn lemma_find_exists(ports: Seq<PortView>, label: Seq<char>)
    ensures
        find_by_label(ports, label) is Some <==> exists|i: int|
            0 <= i < ports.len() && #[trigger] ports[i].label == label,
    decreases ports.len(),
{
    if ports.len() > 0 {
        lemma_find_exists(ports.drop_first(), label);
        if ports[0].label != label {
            assert forall|i: int| 0 <= i < ports.len() && #[trigger] ports[i].label == label implies
                exists|k: int| 0 <= k < ports.drop_first().len() && #[trigger] ports.drop_first()[k].label
                    == label by {
                assert(ports.drop_first()[i - 1] == ports[i]);
            }
            assert forall|k: int|
                0 <= k < ports.drop_first().len() && #[trigger] ports.drop_first()[k].label == label implies
                exists|i: int| 0 <= i < ports.len() && #[trigger] ports[i].label == label by {
                assert(ports[k + 1] == ports.drop_first()[k]);
            }
        }
    }
}

/// A node is offered as a target exactly when it has a port labelled
/// `playback_FL` and one labelled `playback_FR`, whatever other ports it has.
pub proof fn law_target_candidate_ports(n: NodeView)
    ensures
        is_target_candidate(n) <==> (exists|i: int|
            0 <= i < n.ports.len() && #[trigger] n.ports[i].label == "playback_FL"@) && (exists|
            j: int,
        | 0 <= j < n.ports.len() && #[trigger] n.ports[j].label == "playback_FR"@),
{
    lemma_find_exists(n.ports, "playback_FL"@);
    lemma_find_exists(n.ports, "playback_FR"@);
}

/// Adding a new port, whatever its label, never takes a node off the target candidates.
pub proof fn law_new_port_keeps_target(n: NodeView, p: PortView)
    requires
        !has_id(n.ports, p.id),
        is_target_candidate(n),
    ensures
        is_target_candidate(n.with_port(p)),
{
    law_target_candidate_ports(n);
    law_target_candidate_ports(n.with_port(p));
    let m = n.with_port(p);
    assert(m.ports == n.ports.push(p));
    let i = choose|i: int| 0 <= i < n.ports.len() && #[trigger] n.ports[i].label == "playback_FL"@;
    let j = choose|j: int| 0 <= j < n.ports.len() && #[trigger] n.ports[j].label == "playback_FR"@;
    assert(m.ports[i] == n.ports[i]);
    assert(m.ports[j] == n.ports[j]);
}

/// After a node is removed it is no longer known, whatever is selected; the
/// other nodes, the selection, the targets and the links stay as they were.
pub proof fn law_removed_node_forgotten(v: ManagerView, id: u32, k: u32)
    ensures
        !v.node_removed(id).nodes.contains_key(id),
        k != id ==> v.node_removed(id).nodes.get(k) == v.nodes.get(k),
        v.node_removed(id).source_id == v.source_id,
        v.node_removed(id).targets == v.targets,
        v.node_removed(id).links == v.links,
{
}

/// Clearing the source leaves the known nodes and the port bookkeeping alone,
/// keeps the targets, and forgets only the selection and the mirroring links.
pub proof fn law_clear_source_keeps_graph(v: ManagerView)
    ensures
        v.source_cleared().nodes == v.nodes,
        v.source_cleared().port2node == v.port2node,
        v.source_cleared().targets == v.targets,
        v.source_cleared().source_id is None,
        v.source_cleared().links == Seq::<(u32, u32)>::empty(),
{
}

/// When a known target goes, no remaining mirroring link ends at its playback
/// ports, every link that goes is asked to be removed, and it is no longer a target.
pub proof fn law_removed_target_unlinked(v: ManagerView, id: u32)
    requires
        v.wf(),
        v.nodes.contains_key(id),
    ensures
        forall|l: (u32, u32)| #[trigger]
            v.target_removed(id).links.contains(l) ==> !hits(l, v.target_left(id), v.target_right(id)),
        forall|l: (u32, u32)|
            #![trigger v.target_removed(id).links.contains(l)]
            v.links.contains(l) && !v.target_removed(id).links.contains(l)
                ==> v.target_links(id).contains(l),
        !v.target_removed(id).targets.contains(id),
        v.target_removed(id).wf(),
{
    let fl = v.target_left(id);
    let fr = v.target_right(id);
    lemma_filter(v.links, missing(fl, fr));
    lemma_filter(v.targets, other_than(id));
    lemma_doomed_contains(v.links, fl, fr);
}

/// Adding a target that is one already changes nothing.
pub proof fn law_add_target_idempotent(v: ManagerView, id: u32)
    ensures
        v.target_added(id).target_added(id) == v.target_added(id),
{
    if !v.targets.contains(id) {
        assert(v.targets.push(id)[v.targets.len() as int] == id);
    }
}

/// A target that was added and then removed is no longer a target.
pub proof fn law_add_then_remove_target(v: ManagerView, id: u32)
    ensures
        !v.target_added(id).target_removed(id).targets.contains(id),
{
    lemma_filter(v.target_added(id).targets, other_than(id));
}

/// A mirroring link that PipeWire lost is asked for again, once; a link that
/// mirroring never asked for, or no longer wants, is left alone.
pub proof fn law_lost_link_recreated(v: ManagerView, id: u32)
    ensures
        v.link_ids.contains_key(id) && v.links.contains(v.link_ids[id])
            ==> v.link_removal_actions(id) == seq![
            Action::CreateLink { port_from: v.link_ids[id].0, port_to: v.link_ids[id].1 },
        ],
        !(v.link_ids.contains_key(id) && v.links.contains(v.link_ids[id]))
            ==> v.link_removal_actions(id) == Seq::<Action>::empty(),
        v.link_removed(id).link_removal_actions(id) == Seq::<Action>::empty(),
{
}

/// Once the source is cleared nothing is mirrored: no link is wanted, a lost
/// link is not asked for again, and the status says so; the targets stay chosen.
pub proof fn law_clear_source_stops_mirroring(v: ManagerView, id: u32)
    ensures
        v.source_cleared().links == Seq::<(u32, u32)>::empty(),
        v.source_cleared().link_removal_actions(id) == Seq::<Action>::empty(),
        v.source_cleared().status() == (Action::SetStatus {
            mirroring: false,
            target_count: v.targets.len() as u32,
        }),
        v.source_cleared().targets == v.targets,
        v.source_cleared().update_actions() == Seq::<Action>::empty(),
{
}

/// Cleaning up forgets the source, the targets and every link, and asks for
/// the removal of every link that mirroring had asked for.
pub proof fn law_cleanup_forgets_everything(v: ManagerView, id: u32)
    ensures
        v.cleaned_up().links == Seq::<(u32, u32)>::empty(),
        v.cleaned_up().targets == Seq::<u32>::empty(),
        v.cleaned_up().source_id is None,
        v.cleaned_up().link_removal_actions(id) == Seq::<Action>::empty(),
        v.wf() ==> v.cleaned_up().wf(),
{
}

/// The manager of the mirroring links, driven by PipeWire events and user choices.
pub struct GraphManager {
    nodes: HashMap<u32, Node>,
    port2node: HashMap<u32, u32>,
    selected_source_id: Option<u32>,
    selected_source_kind: Option<CandidateType>,
    active_targets: Vec<u32>,
    active_links: Vec<(u32, u32)>,
    link_id_to_ports: HashMap<u32, (u32, u32)>,
}

impl View for GraphManager {
    type V = ManagerView;

    closed spec fn view(&self) -> ManagerView {
        ManagerView {
            nodes: self.nodes@.map_values(|n: Node| n@),
            port2node: self.port2node@,
            source_id: self.selected_source_id,
            source_kind: self.selected_source_kind,
            targets: self.active_targets@,
            links: self.active_links@,
            link_ids: self.link_id_to_ports@,
        }
    }
}

/// Whether the vector holds the pair.
fn contains_pair(v: &Vec<(u32, u32)>, p: (u32, u32)) -> (r: bool)
    ensures
        r == v@.contains(p),
{
    let mut i: usize = 0;
    while i < v.len()
        invariant
            i <= v@.len(),
            forall|j: int| 0 <= j < i ==> v@[j] != p,
        decreases v@.len() - i,
    {
        if v[i].0 == p.0 && v[i].1 == p.1 {
            return true;
        }
        i = i + 1;
    }
    false
}

/// Whether the vector holds the id.
fn contains_id(v: &Vec<u32>, x: u32) -> (r: bool)
    ensures
        r == v@.contains(x),
{
    let mut i: usize = 0;
    while i < v.len()
        invariant
            i <= v@.len(),
            forall|j: int| 0 <= j < i ==> v@[j] != x,
        decreases v@.len() - i,
    {
        if v[i] == x {
            return true;
        }
        i = i + 1;
    }
    false
}

impl GraphManager {
    pub closed spec fn wf(&self) -> bool {
        self@.wf()
    }

    pub fn new() -> (g: GraphManager)
        ensures
            g@ == ManagerView::empty(),
            g.wf(),
    {
        let g = GraphManager {
            nodes: HashMap::new(),
            port2node: HashMap::new(),
            selected_source_id: None,
            selected_source_kind: None,
            active_targets: Vec::new(),
            active_links: Vec::new(),
            link_id_to_ports: HashMap::new(),
        };
        proof {
            assert(g@.nodes =~= Map::empty());
        }
        g
    }

    fn status_action(&self) -> (a: Action)
        ensures
            a == self@.status(),
    {
        let has_source = self.selected_source_id.is_some();
        let target_count = self.active_targets.len() as u32;
        let is_mirroring = has_source && self.active_targets.len() > 0;
        Action::SetStatus { mirroring: is_mirroring, target_count }
    }

    /// Create the links from the source to every target that are not there yet.
    fn update_links(&mut self) -> (acts: Vec<Action>)
        requires
            old(self).wf(),
        ensures
            final(self)@ == old(self)@.links_updated(),
            acts@ == old(self)@.update_actions(),
            final(self).wf(),
    {
        let source_id = match self.selected_source_id {
            Some(id) => id,
            None => return Vec::new(),
        };
        let source_kind = match self.selected_source_kind {
            Some(kind) => kind,
            None => return Vec::new(),
        };
        let source_node = match self.nodes.get(&source_id) {
            Some(n) => n,
            None => return Vec::new(),
        };
        // Determine source port labels based on kind.
        let (source_fl_label, source_fr_label) = match source_kind {
            CandidateType::Device => ("monitor_FL", "monitor_FR"),
            CandidateType::Application => ("output_FL", "output_FR"),
        };
        let source_fl = match source_node.first_port_by_label(source_fl_label) {
            Some(p) => p.get_id(),
            None => return Vec::new(),
        };
        let source_fr = match source_node.first_port_by_label(source_fr_label) {
            Some(p) => p.get_id(),
            None => return Vec::new(),
        };
        let ghost old_view = self@;
        let ghost old_links = self.active_links@;
        assert(old_view.source_ports() == Some((source_fl, source_fr)));
        let mut actions: Vec<Action> = Vec::new();
        let mut i: usize = 0;
        while i < self.active_targets.len()
            invariant
                i <= self.active_targets@.len(),
                self@ == (ManagerView { links: self.active_links@, ..old_view }),
                self.active_links@ == append_new(
                    old_links,
                    old_view.desired_links(source_fl, source_fr, old_view.targets.take(i as int)),
                ),
                actions@ == creates(self.active_links@.skip(old_links.len() as int)),
            decreases self.active_targets@.len() - i,
        {
            let ghost before = self.active_links@;
            let ghost d = old_view.desired_links(
                source_fl,
                source_fr,
                old_view.targets.take(i as int),
            );
            proof {
                lemma_append_new_shape(old_links, d);
                assert(old_view.targets.take(i + 1).drop_last() =~= old_view.targets.take(
                    i as int,
                ));
            }
            let target_id = self.active_targets[i];
            if let Some(target_node) = self.nodes.get(&target_id) {
                let target_fl = target_node.first_port_by_label("playback_FL");
                let target_fr = target_node.first_port_by_label("playback_FR");
                if let (Some(target_fl), Some(target_fr)) = (target_fl, target_fr) {
                    let link_fl = (source_fl, target_fl.get_id());
                    let link_fr = (source_fr, target_fr.get_id());
                    proof {
                        lemma_append_new_push(old_links, d, link_fl);
                        lemma_append_new_push(old_links, d.push(link_fl), link_fr);
                        assert(d.push(link_fl).push(link_fr) == old_view.desired_links(
                            source_fl,
                            source_fr,
                            old_view.targets.take(i + 1),
                        ));
                    }
                    if !contains_pair(&self.active_links, link_fl) {
                        actions.push(Action::CreateLink { port_from: link_fl.0, port_to: link_fl.1 });
                        self.active_links.push(link_fl);
                        proof {
                            assert(self.active_links@.skip(old_links.len() as int) =~= before.skip(
                                old_links.len() as int,
                            ).push(link_fl));
                            assert(actions@ =~= creates(
                                self.active_links@.skip(old_links.len() as int),
                            ));
                        }
                    }
                    let ghost mid = self.active_links@;
                    if !contains_pair(&self.active_links, link_fr) {
                        actions.push(Action::CreateLink { port_from: link_fr.0, port_to: link_fr.1 });
                        self.active_links.push(link_fr);
                        proof {
                            lemma_append_new_shape(old_links, d.push(link_fl));
                            assert(self.active_links@.skip(old_links.len() as int) =~= mid.skip(
                                old_links.len() as int,
                            ).push(link_fr));
                            assert(actions@ =~= creates(
                                self.active_links@.skip(old_links.len() as int),
                            ));
                        }
                    }
                } else {
                    assert(d == old_view.desired_links(
                        source_fl,
                        source_fr,
                        old_view.targets.take(i + 1),
                    ));
                }
            } else {
                assert(d == old_view.desired_links(
                    source_fl,
                    source_fr,
                    old_view.targets.take(i + 1),
                ));
            }
            i = i + 1;
        }
        proof {
            assert(old_view.targets.take(i as int) =~= old_view.targets);
            lemma_append_new_shape(
                old_links,
                old_view.desired_links(source_fl, source_fr, old_view.targets),
            );
        }
        actions.push(self.status_action());
        actions
    }

    /// Choose the source and mirror it to the targets.
    pub fn set_source(&mut self, id: u32, kind: CandidateType) -> (acts: Vec<Action>)
        requires
            old(self).wf(),
        ensures
            final(self)@ == old(self)@.source_set(id, kind).links_updated(),
            acts@ == old(self)@.source_set(id, kind).update_actions(),
            final(self).wf(),
    {
        self.selected_source_id = Some(id);
        self.selected_source_kind = Some(kind);
        self.update_links()
    }

    /// Add a target, unless it is one already, and mirror the source to it.
    pub fn add_target(&mut self, id: u32) -> (acts: Vec<Action>)
        requires
            old(self).wf(),
        ensures
            final(self)@ == old(self)@.target_added(id).links_updated(),
            acts@ == old(self)@.target_added(id).update_actions(),
            final(self).wf(),
    {
        if !contains_id(&self.active_targets, id) {
            self.active_targets.push(id);
        }
        proof {
            assert(self@.targets == old(self)@.target_added(id).targets);
        }
        self.update_links()
    }

    /// Stop mirroring to a target: forget its links, ask PipeWire to remove
    /// them, drop the target and show the status.
    pub fn remove_target(&mut self, id: u32) -> (acts: Vec<Action>)
        requires
            old(self).wf(),
        ensures
            final(self)@ == old(self)@.target_removed(id),
            acts@ == removes(old(self)@.target_links(id)).push(old(self)@.target_removed(id).status()),
            final(self).wf(),
    {
        let ghost old_view = self@;
        let mut actions: Vec<Action> = Vec::new();
        if let Some(target_node) = self.nodes.get(&id) {
            let target_fl = match target_node.first_port_by_label("playback_FL") {
                Some(p) => Some(p.get_id()),
                None => None,
            };
            let target_fr = match target_node.first_port_by_label("playback_FR") {
                Some(p) => Some(p.get_id()),
                None => None,
            };
            assert(target_fl == old_view.target_left(id));
            assert(target_fr == old_view.target_right(id));
            let mut links_to_remove: Vec<(u32, u32)> = Vec::new();
            let mut kept: Vec<(u32, u32)> = Vec::new();
            let mut i: usize = 0;
            while i < self.active_links.len()
                invariant
                    i <= self.active_links@.len(),
                    self@ == old_view,
                    links_to_remove@ == doomed(self.active_links@.take(i as int), target_fl, target_fr),
                    kept@ == self.active_links@.take(i as int).filter(missing(target_fl, target_fr)),
                decreases self.active_links@.len() - i,
            {
                let link = self.active_links[i];
                proof {
                    reveal(Seq::filter);
                    let t = self.active_links@.take(i + 1);
                    assert(t.drop_last() =~= self.active_links@.take(i as int));
                    assert(t.last() == link);
                }
                if target_fl == Some(link.1) {
                    links_to_remove.push(link);
                }
                if target_fr == Some(link.1) {
                    links_to_remove.push(link);
                }
                if !(target_fl == Some(link.1) || target_fr == Some(link.1)) {
                    kept.push(link);
                }
                i = i + 1;
            }
            proof {
                assert(self.active_links@.take(i as int) =~= self.active_links@);
                lemma_filter(self.active_links@, missing(target_fl, target_fr));
            }
            // Forget the links first, so that their removal is not answered by re-creating them.
            self.active_links = kept;
            let mut j: usize = 0;
            while j < links_to_remove.len()
                invariant
                    j <= links_to_remove@.len(),
                    actions@ == removes(links_to_remove@.take(j as int)),
                decreases links_to_remove@.len() - j,
            {
                let l = links_to_remove[j];
                actions.push(Action::RemoveLink { port_from: l.0, port_to: l.1 });
                proof {
                    assert(actions@ =~= removes(links_to_remove@.take(j + 1)));
                }
                j = j + 1;
            }
            proof {
                assert(links_to_remove@.take(j as int) =~= links_to_remove@);
            }
        } else {
            proof {
                assert(actions@ =~= removes(Seq::empty()));
            }
        }
        let mut targets: Vec<u32> = Vec::new();
        let mut k: usize = 0;
        while k < self.active_targets.len()
            invariant
                k <= self.active_targets@.len(),
                self.active_targets@ == old_view.targets,
                targets@ == self.active_targets@.take(k as int).filter(other_than(id)),
            decreases self.active_targets@.len() - k,
        {
            let t = self.active_targets[k];
            proof {
                reveal(Seq::filter);
                let s = self.active_targets@.take(k + 1);
                assert(s.drop_last() =~= self.active_targets@.take(k as int));
                assert(s.last() == t);
            }
            if t != id {
                targets.push(t);
            }
            k = k + 1;
        }
        proof {
            assert(self.active_targets@.take(k as int) =~= self.active_targets@);
            lemma_filter(old_view.targets, other_than(id));
        }
        self.active_targets = targets;
        proof {
            assert(self@.links =~= old_view.target_removed(id).links);
            assert(self@.targets =~= old_view.target_removed(id).targets);
            assert(self@.nodes =~= old_view.target_removed(id).nodes);
            assert(self@ == old_view.target_removed(id));
        }
        actions.push(self.status_action());
        actions
    }

    /// Requests to remove each of the links, in order.
    fn removal_requests(links: &Vec<(u32, u32)>) -> (acts: Vec<Action>)
        ensures
            acts@ == removes(links@),
    {
        let mut actions: Vec<Action> = Vec::new();
        let mut j: usize = 0;
        while j < links.len()
            invariant
                j <= links@.len(),
                actions@ == removes(links@.take(j as int)),
            decreases links@.len() - j,
        {
            let l = links[j];
            actions.push(Action::RemoveLink { port_from: l.0, port_to: l.1 });
            proof {
                assert(actions@ =~= removes(links@.take(j + 1)));
            }
            j = j + 1;
        }
        proof {
            assert(links@.take(j as int) =~= links@);
        }
        actions
    }

    /// Stop mirroring the source: forget and remove all links, keep the targets.
    pub fn clear_source(&mut self) -> (acts: Vec<Action>)
        requires
            old(self).wf(),
        ensures
            final(self)@ == old(self)@.source_cleared(),
            acts@ == removes(old(self)@.links).push(old(self)@.source_cleared().status()),
            final(self).wf(),
    {
        // Forget the links first, so that their removal is not answered by re-creating them.
        let mut links: Vec<(u32, u32)> = Vec::new();
        std::mem::swap(&mut links, &mut self.active_links);
        self.link_id_to_ports.clear();
        let mut actions = Self::removal_requests(&links);
        self.selected_source_id = None;
        self.selected_source_kind = None;
        proof {
            assert(self@.links =~= Seq::empty());
        }
        actions.push(self.status_action());
        actions
    }

    /// Forget the source, the targets and all links, and ask PipeWire to remove the links.
    pub fn cleanup(&mut self) -> (acts: Vec<Action>)
        requires
            old(self).wf(),
        ensures
            final(self)@ == old(self)@.cleaned_up(),
            acts@ == removes(old(self)@.links),
            final(self).wf(),
    {
        let mut links: Vec<(u32, u32)> = Vec::new();
        std::mem::swap(&mut links, &mut self.active_links);
        self.link_id_to_ports.clear();
        self.active_targets.clear();
        self.selected_source_id = None;
        self.selected_source_kind = None;
        proof {
            assert(self@.links =~= Seq::empty());
            assert(self@.targets =~= Seq::empty());
        }
        Self::removal_requests(&links)
    }

    /// The status to show: mirroring needs a source and at least one target.
    pub fn update_status(&self) -> (acts: Vec<Action>)
        ensures
            acts@ == seq![self@.status()],
    {
        let mut actions: Vec<Action> = Vec::new();
        actions.push(self.status_action());
        proof {
            assert(actions@ =~= seq![self@.status()]);
        }
        actions
    }

    /// Add a node; a node under the same id is replaced.
    pub fn add_node(&mut self, id: u32, name: &str, node_type: Option<NodeType>) -> (acts: Vec<
        Action,
    >)
        requires
            old(self).wf(),
        ensures
            final(self)@ == old(self)@.node_added(id, name@),
            acts@ == seq![Action::RefreshCandidates],
            final(self).wf(),
    {
        let node = Node::new(name, id);
        self.nodes.insert(id, node);
        proof {
            assert(self@.nodes =~= old(self)@.node_added(id, name@).nodes);
        }
        let mut actions: Vec<Action> = Vec::new();
        actions.push(Action::RefreshCandidates);
        proof {
            assert(actions@ =~= seq![Action::RefreshCandidates]);
        }
        actions
    }

    /// Record the new names of a node.
    pub fn node_name_changed(&mut self, id: u32, node_name: &str, media_name: &str) -> (acts: Vec<
        Action,
    >)
        requires
            old(self).wf(),
        ensures
            final(self)@ == old(self)@.node_renamed(id, node_name@, media_name@),
            acts@ == (if old(self)@.nodes.contains_key(id) {
                seq![Action::RefreshCandidates]
            } else {
                Seq::empty()
            }),
            final(self).wf(),
    {
        let mut actions: Vec<Action> = Vec::new();
        match self.nodes.remove(&id) {
            Some(mut node) => {
                node.set_name(node_name);
                node.set_media_name(media_name);
                self.nodes.insert(id, node);
                proof {
                    assert(self@.nodes =~= old(self)@.node_renamed(id, node_name@, media_name@).nodes);
                }
                actions.push(Action::RefreshCandidates);
                proof {
                    assert(actions@ =~= seq![Action::RefreshCandidates]);
                }
            },
            None => {
                proof {
                    assert(self@.nodes =~= old(self)@.nodes);
                }
            },
        }
        actions
    }

    /// Forget a node.
    pub fn remove_node(&mut self, id: u32) -> (acts: Vec<Action>)
        requires
            old(self).wf(),
        ensures
            final(self)@ == old(self)@.node_removed(id),
            acts@ == (if old(self)@.nodes.contains_key(id) {
                seq![Action::RefreshCandidates]
            } else {
                Seq::empty()
            }),
            final(self).wf(),
    {
        let mut actions: Vec<Action> = Vec::new();
        let removed = self.nodes.remove(&id);
        proof {
            assert(self@.nodes =~= old(self)@.nodes.remove(id));
        }
        if removed.is_some() {
            actions.push(Action::RefreshCandidates);
            proof {
                assert(actions@ =~= seq![Action::RefreshCandidates]);
            }
        }
        actions
    }

    /// Add a port to its node. The port bookkeeping is then written keyed by
    /// the node's id and holding the port's id.
    pub fn add_port(&mut self, id: u32, name: &str, node_id: u32, direction: Direction) -> (acts:
        Vec<Action>)
        requires
            old(self).wf(),
        ensures
            final(self)@ == old(self)@.port_added(id, name@, node_id, direction),
            acts@ == (if old(self)@.nodes.contains_key(node_id) {
                seq![Action::RefreshCandidates]
            } else {
                Seq::empty()
            }),
            final(self).wf(),
    {
        let mut actions: Vec<Action> = Vec::new();
        match self.nodes.remove(&node_id) {
            Some(mut node) => {
                assert(old(self)@.nodes[node_id] == node@);
                node.add_port(Port::new(name, id, direction));
                self.nodes.insert(node_id, node);
                self.port2node.insert(node_id, id);
                proof {
                    assert(self@.nodes =~= old(self)@.port_added(id, name@, node_id, direction).nodes);
                }
                actions.push(Action::RefreshCandidates);
                proof {
                    assert(actions@ =~= seq![Action::RefreshCandidates]);
                }
            },
            None => {
                proof {
                    assert(self@.nodes =~= old(self)@.nodes);
                }
            },
        }
        actions
    }

    /// Record the media type of a port, found through the port bookkeeping.
    /// That bookkeeping is keyed by node ids, so the lookup by the port's id
    /// finds a node only where the port's id is also the id of a node that has
    /// this port; PipeWire gives every object its own id, so in practice the
    /// format of a port is never recorded (see `law_port_format_needs_node_key`).
    pub fn port_media_type_changed(&mut self, id: u32, media_type: MediaType) -> (acts: Vec<Action>)
        requires
            old(self).wf(),
        ensures
            final(self)@ == old(self)@.port_format_changed(id, media_type),
            acts@ == (if old(self)@.format_node(id) is Some {
                seq![Action::RefreshCandidates]
            } else {
                Seq::empty()
            }),
            final(self).wf(),
    {
        let mut actions: Vec<Action> = Vec::new();
        let node_id = match self.port2node.get(&id) {
            Some(n) => *n,
            None => return actions,
        };
        match self.nodes.remove(&node_id) {
            Some(mut node) => {
                let ghost n = node@;
                assert(old(self)@.nodes[node_id] == n);
                match node.get_port_mut(id) {
                    Some(port) => {
                        port.set_media_type(media_type);
                    },
                    None => {},
                }
                proof {
                    if has_id(n.ports, id) {
                        let i = index_of_id(n.ports, id);
                        assert(node@.ports =~= n.ports.update(
                            i,
                            PortView { media_type, ..n.ports[i] },
                        ));
                        assert(node@.wf()) by {
                            assert forall|a: int, b: int|
                                0 <= a < node@.ports.len() && 0 <= b < node@.ports.len() && a != b
                                    implies #[trigger] node@.ports[a].id
                                != #[trigger] node@.ports[b].id by {
                                assert(node@.ports[a].id == n.ports[a].id);
                                assert(node@.ports[b].id == n.ports[b].id);
                            }
                        }
                    }
                }
                self.nodes.insert(node_id, node);
                proof {
                    assert(self@.nodes =~= old(self)@.port_format_changed(id, media_type).nodes);
                }
                actions.push(Action::RefreshCandidates);
                proof {
                    assert(actions@ =~= seq![Action::RefreshCandidates]);
                }
            },
            None => {
                proof {
                    assert(self@.nodes =~= old(self)@.nodes);
                }
            },
        }
        actions
    }

    /// Remove a port from its node.
    pub fn remove_port(&mut self, id: u32, node_id: u32) -> (acts: Vec<Action>)
        requires
            old(self).wf(),
        ensures
            final(self)@ == old(self)@.port_removed(id, node_id),
            acts@ == (if old(self)@.nodes.contains_key(node_id) {
                seq![Action::RefreshCandidates]
            } else {
                Seq::empty()
            }),
            final(self).wf(),
    {
        let mut actions: Vec<Action> = Vec::new();
        match self.nodes.remove(&node_id) {
            Some(mut node) => {
                assert(old(self)@.nodes[node_id] == node@);
                node.remove_port(id);
                self.nodes.insert(node_id, node);
                proof {
                    assert(self@.nodes =~= old(self)@.port_removed(id, node_id).nodes);
                }
                actions.push(Action::RefreshCandidates);
                proof {
                    assert(actions@ =~= seq![Action::RefreshCandidates]);
                }
            },
            None => {
                proof {
                    assert(self@.nodes =~= old(self)@.nodes);
                }
            },
        }
        actions
    }

    /// A link appeared in PipeWire: remember its id if it is one of the mirroring links.
    pub fn add_link(
        &mut self,
        id: u32,
        output_port_id: u32,
        input_port_id: u32,
        active: bool,
        media_type: MediaType,
    ) -> (acts: Vec<Action>)
        requires
            old(self).wf(),
        ensures
            final(self)@ == old(self)@.link_added(id, output_port_id, input_port_id),
            acts@ == Seq::<Action>::empty(),
            final(self).wf(),
    {
        let ports = (output_port_id, input_port_id);
        if contains_pair(&self.active_links, ports) {
            // Track this link id, so that its removal can be noticed.
            self.link_id_to_ports.insert(id, ports);
        }
        Vec::new()
    }

    /// A link disappeared from PipeWire: if it was one of the mirroring links
    /// and is still wanted, ask for it again.
    pub fn remove_link(&mut self, id: u32) -> (acts: Vec<Action>)
        requires
            old(self).wf(),
        ensures
            final(self)@ == old(self)@.link_removed(id),
            acts@ == old(self)@.link_removal_actions(id),
            final(self).wf(),
    {
        let mut actions: Vec<Action> = Vec::new();
        let ports = self.link_id_to_ports.remove(&id);
        if let Some((port_from, port_to)) = ports {
            if contains_pair(&self.active_links, (port_from, port_to)) {
                actions.push(Action::CreateLink { port_from, port_to });
                proof {
                    assert(actions@ =~= old(self)@.link_removal_actions(id));
                }
            }
        }
        actions
    }

    /// The link state is not shown, so nothing follows from it.
    pub fn link_state_changed(&mut self, id: u32, active: bool) -> (acts: Vec<Action>)
        ensures
            final(self)@ == old(self)@,
            acts@ == Seq::<Action>::empty(),
    {
        Vec::new()
    }

    /// The link format is not shown, so nothing follows from it.
    pub fn link_format_changed(&mut self, id: u32, media_type: MediaType) -> (acts: Vec<Action>)
        ensures
            final(self)@ == old(self)@,
            acts@ == Seq::<Action>::empty(),
    {
        Vec::new()
    }

    /// Show the mute state that PipeWire reported for a node.
    pub fn mute_changed(&self, node_id: u32, muted: bool) -> (acts: Vec<Action>)
        ensures
            acts@ == seq![Action::UpdateMute { node_id, muted }],
    {
        let mut actions: Vec<Action> = Vec::new();
        actions.push(Action::UpdateMute { node_id, muted });
        proof {
            assert(actions@ =~= seq![Action::UpdateMute { node_id, muted }]);
        }
        actions
    }

    /// The nodes that can be mirrored: those with both output ports (an
    /// application) or else both monitor ports (a device), in no particular order.
    pub fn get_candidates_source(&self) -> (r: Vec<CandidateData>)
        requires
            self.wf(),
        ensures
            forall|i: int|
                0 <= i < r@.len() ==> {
                    let c = #[trigger] r@[i]@;
                    &&& self@.nodes.contains_key(c.id)
                    &&& source_kind_of(self@.nodes[c.id]) == Some(c.kind)
                    &&& c.label == self@.nodes[c.id].name
                },
            forall|k: u32|
                #![trigger self@.nodes[k]]
                self@.nodes.contains_key(k) && source_kind_of(self@.nodes[k]) is Some ==> exists|
                    i: int,
                | 0 <= i < r@.len() && r@[i]@.id == k,
            forall|i: int, j: int|
                0 <= i < r@.len() && 0 <= j < r@.len() && i != j ==> #[trigger] r@[i]@.id
                    != #[trigger] r@[j]@.id,
    {
        let iter = self.nodes.iter();
        let ghost items = iter.remaining();
        proof {
            assert forall|a: int, b: int|
                0 <= a < items.len() && 0 <= b < items.len() && a != b implies #[trigger] *items[a].0
                != #[trigger] *items[b].0 by {
                if *items[a].0 == *items[b].0 {
                    assert(self.nodes@[*items[a].0] == *items[a].1);
                    assert(self.nodes@[*items[b].0] == *items[b].1);
                    assert(items[a] == items[b]);
                }
            }
        }
        let mut out: Vec<CandidateData> = Vec::new();
        for entry in it: iter
            invariant
                self.wf(),
                it.seq() == items,
                items.len() == self.nodes@.dom().len(),
                forall|a: int|
                    0 <= a < items.len() ==> self.nodes@.contains_key(*#[trigger] items[a].0)
                        && self.nodes@[*items[a].0] == *items[a].1,
                forall|k: u32| #[trigger]
                    self.nodes@.contains_key(k) ==> items.contains((&k, &self.nodes@[k])),
                forall|a: int, b: int|
                    0 <= a < items.len() && 0 <= b < items.len() && a != b ==> #[trigger] *items[a].0
                        != #[trigger] *items[b].0,
                forall|i: int|
                    0 <= i < out@.len() ==> {
                        let c = #[trigger] out@[i]@;
                        &&& self@.nodes.contains_key(c.id)
                        &&& source_kind_of(self@.nodes[c.id]) == Some(c.kind)
                        &&& c.label == self@.nodes[c.id].name
                    },
                forall|j: int|
                    #![trigger items[j]]
                    0 <= j < it.index() && source_kind_of((*items[j].1)@) is Some ==> exists|i: int|
                        0 <= i < out@.len() && out@[i]@.id == *items[j].0,
                forall|i: int, j: int|
                    0 <= i < out@.len() && it.index() <= j < items.len() ==> #[trigger] out@[i]@.id
                        != *#[trigger] items[j].0,
                forall|i: int, j: int|
                    0 <= i < out@.len() && 0 <= j < out@.len() && i != j ==> #[trigger] out@[i]@.id
                        != #[trigger] out@[j]@.id,
        {
            let (id, node) = entry;
            let ghost j = it.index();
            let ghost before = out@;
            proof {
                assert(items[j] == (id, node));
                assert(self.nodes@.contains_key(*id));
                assert(self@.nodes.contains_key(*id));
                assert(self@.nodes[*id] == node@);
                assert(node@.id == *id);
            }
            if node.has_port_by_label("output_FL") && node.has_port_by_label("output_FR") {
                out.push(CandidateData::new(node.get_id(), CandidateType::Application, node.get_name()));
            } else if node.has_port_by_label("monitor_FL") && node.has_port_by_label("monitor_FR") {
                out.push(CandidateData::new(node.get_id(), CandidateType::Device, node.get_name()));
            }
            proof {
                assert forall|i: int| 0 <= i < before.len() implies out@[i] == before[i] by {}
                if out@.len() > before.len() {
                    assert(out@[before.len() as int]@.id == *items[j].0);
                }
                assert forall|jj: int|
                    #![trigger items[jj]]
                    0 <= jj < j + 1 && source_kind_of((*items[jj].1)@) is Some implies exists|i: int|
                        0 <= i < out@.len() && out@[i]@.id == *items[jj].0 by {
                    if jj < j {
                        let i = choose|i: int| 0 <= i < before.len() && before[i]@.id == *items[jj].0;
                        assert(out@[i] == before[i]);
                    } else {
                        assert(out@[before.len() as int]@.id == *items[j].0);
                    }
                }
            }
        }
        proof {
            assert forall|k: u32|
                #![trigger self@.nodes[k]]
                self@.nodes.contains_key(k) && source_kind_of(self@.nodes[k]) is Some implies exists|
                    i: int,
                | 0 <= i < out@.len() && out@[i]@.id == k by {
                assert(self.nodes@.contains_key(k));
                assert(items.contains((&k, &self.nodes@[k])));
                let j = choose|j: int| 0 <= j < items.len() && items[j] == (&k, &self.nodes@[k]);
                assert(*items[j].0 == k);
            }
        }
        out
    }

    /// The nodes that can be mirrored to: those with both playback ports, all
    /// devices, in no particular order.
    pub fn get_candidates_target(&self) -> (r: Vec<CandidateData>)
        requires
            self.wf(),
        ensures
            forall|i: int|
                0 <= i < r@.len() ==> {
                    let c = #[trigger] r@[i]@;
                    &&& self@.nodes.contains_key(c.id)
                    &&& is_target_candidate(self@.nodes[c.id]) && c.kind == CandidateType::Device
                    &&& c.label == self@.nodes[c.id].name
                },
            forall|k: u32|
                #![trigger self@.nodes[k]]
                self@.nodes.contains_key(k) && is_target_candidate(self@.nodes[k]) ==> exists|
                    i: int,
                | 0 <= i < r@.len() && r@[i]@.id == k,
            forall|i: int, j: int|
                0 <= i < r@.len() && 0 <= j < r@.len() && i != j ==> #[trigger] r@[i]@.id
                    != #[trigger] r@[j]@.id,
    {
        let iter = self.nodes.iter();
        let ghost items = iter.remaining();
        proof {
            assert forall|a: int, b: int|
                0 <= a < items.len() && 0 <= b < items.len() && a != b implies #[trigger] *items[a].0
                != #[trigger] *items[b].0 by {
                if *items[a].0 == *items[b].0 {
                    assert(self.nodes@[*items[a].0] == *items[a].1);
                    assert(self.nodes@[*items[b].0] == *items[b].1);
                    assert(items[a] == items[b]);
                }
            }
        }
        let mut out: Vec<CandidateData> = Vec::new();
        for entry in it: iter
            invariant
                self.wf(),
                it.seq() == items,
                items.len() == self.nodes@.dom().len(),
                forall|a: int|
                    0 <= a < items.len() ==> self.nodes@.contains_key(*#[trigger] items[a].0)
                        && self.nodes@[*items[a].0] == *items[a].1,
                forall|k: u32| #[trigger]
                    self.nodes@.contains_key(k) ==> items.contains((&k, &self.nodes@[k])),
                forall|a: int, b: int|
                    0 <= a < items.len() && 0 <= b < items.len() && a != b ==> #[trigger] *items[a].0
                        != #[trigger] *items[b].0,
                forall|i: int|
                    0 <= i < out@.len() ==> {
                        let c = #[trigger] out@[i]@;
                        &&& self@.nodes.contains_key(c.id)
                        &&& is_target_candidate(self@.nodes[c.id]) && c.kind == CandidateType::Device
                        &&& c.label == self@.nodes[c.id].name
                    },
                forall|j: int|
                    #![trigger items[j]]
                    0 <= j < it.index() && is_target_candidate((*items[j].1)@) ==> exists|i: int|
                        0 <= i < out@.len() && out@[i]@.id == *items[j].0,
                forall|i: int, j: int|
                    0 <= i < out@.len() && it.index() <= j < items.len() ==> #[trigger] out@[i]@.id
                        != *#[trigger] items[j].0,
                forall|i: int, j: int|
                    0 <= i < out@.len() && 0 <= j < out@.len() && i != j ==> #[trigger] out@[i]@.id
                        != #[trigger] out@[j]@.id,
        {
            let (id, node) = entry;
            let ghost j = it.index();
            let ghost before = out@;
            proof {
                assert(items[j] == (id, node));
                assert(self.nodes@.contains_key(*id));
                assert(self@.nodes.contains_key(*id));
                assert(self@.nodes[*id] == node@);
                assert(node@.id == *id);
            }
            if node.has_port_by_label("playback_FR") && node.has_port_by_label("playback_FL") {
                out.push(CandidateData::new(node.get_id(), CandidateType::Device, node.get_name()));
            }
            proof {
                assert forall|i: int| 0 <= i < before.len() implies out@[i] == before[i] by {}
                if out@.len() > before.len() {
                    assert(out@[before.len() as int]@.id == *items[j].0);
                }
                assert forall|jj: int|
                    #![trigger items[jj]]
                    0 <= jj < j + 1 && is_target_candidate((*items[jj].1)@) implies exists|i: int|
                        0 <= i < out@.len() && out@[i]@.id == *items[jj].0 by {
                    if jj < j {
                        let i = choose|i: int| 0 <= i < before.len() && before[i]@.id == *items[jj].0;
                        assert(out@[i] == before[i]);
                    } else {
                        assert(out@[before.len() as int]@.id == *items[j].0);
                    }
                }
            }
        }
        proof {
            assert forall|k: u32|
                #![trigger self@.nodes[k]]
                self@.nodes.contains_key(k) && is_target_candidate(self@.nodes[k]) implies exists|
                    i: int,
                | 0 <= i < out@.len() && out@[i]@.id == k by {
                assert(self.nodes@.contains_key(k));
                assert(items.contains((&k, &self.nodes@[k])));
                let j = choose|j: int| 0 <= j < items.len() && items[j] == (&k, &self.nodes@[k]);
                assert(*items[j].0 == k);
            }
        }
        out
    }

    /// Handle one message from the PipeWire thread.
    pub fn receive(&mut self, msg: PipewireMessage) -> (acts: Vec<Action>)
        requires
            old(self).wf(),
        ensures
            final(self).wf(),
            match msg {
                PipewireMessage::NodeAdded { id, name, .. } => final(self)@ == old(self)@.node_added(
                    id,
                    name@,
                ) && acts@ == seq![Action::RefreshCandidates],
                PipewireMessage::NodeNameChanged { id, name, media_name } => final(self)@ == old(
                    self,
                )@.node_renamed(id, name@, media_name@) && acts@ == (if old(
                    self,
                )@.nodes.contains_key(id) {
                    seq![Action::RefreshCandidates]
                } else {
                    Seq::empty()
                }),
                PipewireMessage::PortAdded { id, node_id, name, direction } => final(self)@ == old(
                    self,
                )@.port_added(id, name@, node_id, direction) && acts@ == (if old(
                    self,
                )@.nodes.contains_key(node_id) {
                    seq![Action::RefreshCandidates]
                } else {
                    Seq::empty()
                }),
                PipewireMessage::PortFormatChanged { id, media_type } => final(self)@ == old(
                    self,
                )@.port_format_changed(id, media_type) && acts@ == (if old(self)@.format_node(
                    id,
                ) is Some {
                    seq![Action::RefreshCandidates]
                } else {
                    Seq::empty()
                }),
                PipewireMessage::LinkAdded { id, port_from, port_to, .. } => final(self)@ == old(
                    self,
                )@.link_added(id, port_from, port_to) && acts@ == Seq::<Action>::empty(),
                PipewireMessage::NodeRemoved { id } => final(self)@ == old(self)@.node_removed(id)
                    && acts@ == (if old(self)@.nodes.contains_key(id) {
                    seq![Action::RefreshCandidates]
                } else {
                    Seq::empty()
                }),
                PipewireMessage::PortRemoved { id, node_id } => final(self)@ == old(
                    self,
                )@.port_removed(id, node_id) && acts@ == (if old(self)@.nodes.contains_key(
                    node_id,
                ) {
                    seq![Action::RefreshCandidates]
                } else {
                    Seq::empty()
                }),
                PipewireMessage::LinkRemoved { id } => final(self)@ == old(self)@.link_removed(id)
                    && acts@ == old(self)@.link_removal_actions(id),
                PipewireMessage::MuteChanged { node_id, muted } => final(self)@ == old(self)@
                    && acts@ == seq![Action::UpdateMute { node_id, muted }],
                PipewireMessage::Connecting => final(self)@ == old(self)@ && acts@ == seq![
                    Action::RevealBanner(true),
                ],
                PipewireMessage::Connected => final(self)@ == old(self)@ && acts@ == seq![
                    Action::RevealBanner(false),
                ],
                _ => final(self)@ == old(self)@ && acts@ == Seq::<Action>::empty(),
            },
    {
        match msg {
            PipewireMessage::NodeAdded { id, name, node_type } => self.add_node(
                id,
                name.as_str(),
                node_type,
            ),
            PipewireMessage::NodeNameChanged { id, name, media_name } => self.node_name_changed(
                id,
                name.as_str(),
                media_name.as_str(),
            ),
            PipewireMessage::PortAdded { id, node_id, name, direction } => self.add_port(
                id,
                name.as_str(),
                node_id,
                direction,
            ),
            PipewireMessage::PortFormatChanged { id, media_type } => self.port_media_type_changed(
                id,
                media_type,
            ),
            PipewireMessage::LinkAdded { id, port_from, port_to, active, media_type } => self.add_link(
                id,
                port_from,
                port_to,
                active,
                media_type,
            ),
            PipewireMessage::LinkStateChanged { id, active } => self.link_state_changed(id, active),
            PipewireMessage::LinkFormatChanged { id, media_type } => self.link_format_changed(
                id,
                media_type,
            ),
            PipewireMessage::NodeRemoved { id } => self.remove_node(id),
            PipewireMessage::PortRemoved { id, node_id } => self.remove_port(id, node_id),
            PipewireMessage::LinkRemoved { id } => self.remove_link(id),
            PipewireMessage::MuteChanged { node_id, muted } => self.mute_changed(node_id, muted),
            PipewireMessage::Connecting => {
                let mut actions: Vec<Action> = Vec::new();
                actions.push(Action::RevealBanner(true));
                proof {
                    assert(actions@ =~= seq![Action::RevealBanner(true)]);
                }
                actions
            },
            PipewireMessage::Connected => {
                let mut actions: Vec<Action> = Vec::new();
                actions.push(Action::RevealBanner(false));
                proof {
                    assert(actions@ =~= seq![Action::RevealBanner(false)]);
                }
                actions
            },
            PipewireMessage::Disconnected => self.clear(),
        }
    }

    /// The links that mirroring asked for, in order.
    pub fn active_links(&self) -> (r: &Vec<(u32, u32)>)
        ensures
            r@ == self@.links,
    {
        &self.active_links
    }

    /// The chosen targets, in order.
    pub fn active_targets(&self) -> (r: &Vec<u32>)
        ensures
            r@ == self@.targets,
    {
        &self.active_targets
    }

    /// The chosen source and its type.
    pub fn selected_source(&self) -> (r: (Option<u32>, Option<CandidateType>))
        ensures
            r == (self@.source_id, self@.source_kind),
    {
        (self.selected_source_id, self.selected_source_kind)
    }

    /// A lost connection keeps the graph as it is.
    pub fn clear(&mut self) -> (acts: Vec<Action>)
        ensures
            final(self)@ == old(self)@,
            acts@ == Seq::<Action>::empty(),
    {
        Vec::new()
    }
}

} // verus!
