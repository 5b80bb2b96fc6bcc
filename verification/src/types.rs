//! The graph as the mirroring logic sees it: nodes and their ports.

use crate::text::str_eq;
use vstd::prelude::*;

verus! {

/// The kind of media that flows through a port or link.
#[derive(Clone, Copy, Debug, PartialEq, Eq, Structural)]
pub enum MediaType {
    Unknown,
    Audio,
    Video,
    Image,
    Binary,
    Stream,
    Application,
    /// A media type without a name here, by its raw PipeWire code.
    Other(u32),
}

/// The direction of a port.
#[derive(Clone, Copy, Debug, PartialEq, Eq, Structural)]
pub enum Direction {
    Input,
    Output,
}

/// Whether a node consumes or produces audio.
#[derive(Clone, Copy, Debug, PartialEq, Eq, Structural)]
pub enum NodeType {
    Input,
    Output,
}

/// Abstract contents of a [`Port`].
pub struct PortView {
    pub id: u32,
    pub media_type: MediaType,
    pub direction: Direction,
    pub label: Seq<char>,
}

/// A port of a node.
pub struct Port {
    id: u32,
    media_type: MediaType,
    direction: Direction,
    label: String,
}

impl View for Port {
    type V = PortView;

    closed spec fn view(&self) -> PortView {
        PortView {
            id: self.id,
            media_type: self.media_type,
            direction: self.direction,
            label: self.label@,
        }
    }
}

impl Port {
    pub fn new(label: &str, id: u32, direction: Direction) -> (p: Port)
        ensures
            p@ == (PortView { id, media_type: MediaType::Unknown, direction, label: label@ }),
    {
        Port { id, label: label.to_owned(), direction, media_type: MediaType::Unknown }
    }

    pub fn get_id(&self) -> (r: u32)
        ensures
            r == self@.id,
    {
        self.id
    }

    pub fn get_media_type(&self) -> (r: MediaType)
        ensures
            r == self@.media_type,
    {
        self.media_type
    }

    pub fn get_direction(&self) -> (r: Direction)
        ensures
            r == self@.direction,
    {
        self.direction
    }

    pub fn get_label(&self) -> (r: String)
        ensures
            r@ == self@.label,
    {
        self.label.clone()
    }

    pub fn set_media_type(&mut self, media_type: MediaType)
        ensures
            final(self)@ == (PortView { media_type, ..old(self)@ }),
    {
        self.media_type = media_type;
    }

    pub fn set_direction(&mut self, direction: Direction)
        ensures
            final(self)@ == (PortView { direction, ..old(self)@ }),
    {
        self.direction = direction;
    }

    pub fn set_label(&mut self, label: String)
        ensures
            final(self)@ == (PortView { label: label@, ..old(self)@ }),
    {
        self.label = label;
    }
}

/// A link between an output port and an input port.
pub struct Link {
    pub from: u32,
    pub to: u32,
    pub media_type: MediaType,
    pub active: bool,
}

/// The first port that carries `label`, in the node's port order.
pub open spec fn find_by_label(ports: Seq<PortView>, label: Seq<char>) -> Option<PortView>
    decreases ports.len(),
{
    if ports.len() == 0 {
        None
    } else if ports[0].label == label {
        Some(ports[0])
    } else {
        find_by_label(ports.drop_first(), label)
    }
}

/// No two ports share an id.
pub open spec fn unique_ids(ports: Seq<PortView>) -> bool {
    forall|i: int, j: int|
        0 <= i < ports.len() && 0 <= j < ports.len() && i != j ==> #[trigger] ports[i].id
            != #[trigger] ports[j].id
}

/// Whether some port has the id.
pub open spec fn has_id(ports: Seq<PortView>, id: u32) -> bool {
    exists|i: int| 0 <= i < ports.len() && #[trigger] ports[i].id == id
}

/// The position of the port with the id (meaningful where `has_id` holds).
pub open spec fn index_of_id(ports: Seq<PortView>, id: u32) -> int {
    choose|i: int| 0 <= i < ports.len() && #[trigger] ports[i].id == id
}

/// Abstract contents of a [`Node`].
pub struct NodeView {
    pub id: u32,
    pub name: Seq<char>,
    pub media_name: Seq<char>,
    pub ports: Seq<PortView>,
}

impl NodeView {
    pub open spec fn fresh(name: Seq<char>, id: u32) -> NodeView {
        NodeView { id, name, media_name: Seq::empty(), ports: Seq::empty() }
    }

    pub open spec fn wf(self) -> bool {
        unique_ids(self.ports)
    }

    pub open spec fn port_by_label(self, label: Seq<char>) -> Option<PortView> {
        find_by_label(self.ports, label)
    }

    pub open spec fn has_label(self, label: Seq<char>) -> bool {
        self.port_by_label(label) is Some
    }

    pub open spec fn port(self, id: u32) -> Option<PortView> {
        if has_id(self.ports, id) {
            Some(self.ports[index_of_id(self.ports, id)])
        } else {
            None
        }
    }

    /// The node after a port is added; a port with the same id is replaced.
    pub open spec fn with_port(self, port: PortView) -> NodeView {
        NodeView {
            ports: if has_id(self.ports, port.id) {
                self.ports.update(index_of_id(self.ports, port.id), port)
            } else {
                self.ports.push(port)
            },
            ..self
        }
    }

    /// The node after the port with the id is removed.
    pub open spec fn without_port(self, id: u32) -> NodeView {
        NodeView {
            ports: if has_id(self.ports, id) {
                self.ports.remove(index_of_id(self.ports, id))
            } else {
                self.ports
            },
            ..self
        }
    }
}

/// Under unique ids, the chosen position of an id is the only one that holds it.
pub proof fn lemma_index_of_id(ports: Seq<PortView>, id: u32, i: int)
    requires
        unique_ids(ports),
        0 <= i < ports.len(),
        ports[i].id == id,
    ensures
        has_id(ports, id),
        index_of_id(ports, id) == i,
{
}

/// Skipping ports that do not carry the label does not change the search.
pub proof fn lemma_find_skip(ports: Seq<PortView>, label: Seq<char>, i: int)
    requires
        0 <= i <= ports.len(),
        forall|j: int| 0 <= j < i ==> #[trigger] ports[j].label != label,
    ensures
        find_by_label(ports, label) == find_by_label(ports.skip(i), label),
    decreases i,
{
    if i > 0 {
        assert forall|j: int| 0 <= j < i - 1 implies #[trigger] ports.drop_first()[j].label
            != label by {
            assert(ports.drop_first()[j] == ports[j + 1]);
        }
        lemma_find_skip(ports.drop_first(), label, i - 1);
        assert(ports.drop_first().skip(i - 1) =~= ports.skip(i));
        assert(ports[0].label != label);
    } else {
        assert(ports.skip(0) =~= ports);
    }
}

/// A PipeWire node with its ports.
pub struct Node {
    id: u32,
    name: String,
    media_name: String,
    ports: Vec<Port>,
}

impl View for Node {
    type V = NodeView;

    closed spec fn view(&self) -> NodeView {
        NodeView {
            id: self.id,
            name: self.name@,
            media_name: self.media_name@,
            ports: self.ports@.map_values(|p: Port| p@),
        }
    }
}

impl Node {
    pub fn new(name: &str, id: u32) -> (n: Node)
        ensures
            n@ == NodeView::fresh(name@, id),
            n@.wf(),
    {
        let n = Node { id, name: name.to_owned(), media_name: String::new(), ports: Vec::new() };
        proof {
            assert(n@.ports =~= Seq::<PortView>::empty());
        }
        n
    }

    pub fn get_id(&self) -> (r: u32)
        ensures
            r == self@.id,
    {
        self.id
    }

    pub fn get_name(&self) -> (r: String)
        ensures
            r@ == self@.name,
    {
        self.name.clone()
    }

    /// Position of the port with the id, if any.
    fn position_of(&self, port_id: u32) -> (r: Option<usize>)
        requires
            self@.wf(),
        ensures
            r is None <==> !has_id(self@.ports, port_id),
            r matches Some(i) ==> i < self@.ports.len() && index_of_id(self@.ports, port_id) == i
                && self@.ports[i as int].id == port_id,
    {
        let mut i: usize = 0;
        while i < self.ports.len()
            invariant
                i <= self.ports@.len(),
                self@.wf(),
                forall|j: int| 0 <= j < i ==> self@.ports[j].id != port_id,
            decreases self.ports@.len() - i,
        {
            if self.ports[i].id == port_id {
                proof {
                    assert(self@.ports[i as int] == self.ports@[i as int]@);
                    lemma_index_of_id(self@.ports, port_id, i as int);
                }
                return Some(i);
            }
            proof {
                assert(self@.ports[i as int] == self.ports@[i as int]@);
            }
            i = i + 1;
        }
        None
    }

    pub fn get_port(&self, port_id: u32) -> (r: Option<&Port>)
        requires
            self@.wf(),
        ensures
            r is Some <==> self@.port(port_id) is Some,
            r matches Some(p) ==> self@.port(port_id) == Some(p@),
    {
        match self.position_of(port_id) {
            Some(i) => Some(&self.ports[i]),
            None => None,
        }
    }

    pub fn get_port_mut(&mut self, port_id: u32) -> (r: Option<&mut Port>)
        requires
            old(self)@.wf(),
        ensures
            r is Some <==> old(self)@.port(port_id) is Some,
            r is None ==> final(self)@ == old(self)@,
            r matches Some(p) ==> old(self)@.port(port_id) == Some(p@) && final(self)@ == (
            NodeView {
                ports: old(self)@.ports.update(index_of_id(old(self)@.ports, port_id), final(p)@),
                ..old(self)@
            }),
    {
        match self.position_of(port_id) {
            Some(i) => {
                proof {
                    assert(self@.ports[i as int] == self.ports@[i as int]@);
                    let v = self.ports@;
                    assert forall|x: Port|
                        #![trigger v.update(i as int, x)]
                        v.update(i as int, x).map_values(|p: Port| p@) == v.map_values(
                            |p: Port| p@,
                        ).update(i as int, x@) by {
                        assert(v.update(i as int, x).map_values(|p: Port| p@) =~= v.map_values(
                            |p: Port| p@,
                        ).update(i as int, x@));
                    }
                }
                Some(&mut self.ports[i])
            },
            None => None,
        }
    }

    /// A port with the label, if the node has one; which one, where several
    /// share the label, is left open.
    pub fn get_port_by_label(&self, label: &str) -> (r: Option<&Port>)
        ensures
            r is Some <==> exists|i: int|
                0 <= i < self@.ports.len() && #[trigger] self@.ports[i].label == label@,
            r matches Some(p) ==> p@.label == label@ && self@.ports.contains(p@),
    {
        let mut i: usize = 0;
        while i < self.ports.len()
            invariant
                i <= self.ports@.len(),
                forall|j: int| 0 <= j < i ==> #[trigger] self@.ports[j].label != label@,
            decreases self.ports@.len() - i,
        {
            proof {
                assert(self@.ports[i as int] == self.ports@[i as int]@);
            }
            if str_eq(self.ports[i].label.as_str(), label) {
                proof {
                    assert(self@.ports[i as int].label == label@);
                }
                return Some(&self.ports[i]);
            }
            i = i + 1;
        }
        None
    }

    /// The first port added with the label, if the node has one.
    pub(crate) fn first_port_by_label(&self, label: &str) -> (r: Option<&Port>)
        ensures
            r is Some <==> self@.port_by_label(label@) is Some,
            r matches Some(p) ==> self@.port_by_label(label@) == Some(p@),
    {
        let mut i: usize = 0;
        while i < self.ports.len()
            invariant
                i <= self.ports@.len(),
                forall|j: int| 0 <= j < i ==> #[trigger] self@.ports[j].label != label@,
            decreases self.ports@.len() - i,
        {
            proof {
                assert(self@.ports[i as int] == self.ports@[i as int]@);
            }
            if str_eq(self.ports[i].label.as_str(), label) {
                proof {
                    lemma_find_skip(self@.ports, label@, i as int);
                }
                return Some(&self.ports[i]);
            }
            i = i + 1;
        }
        proof {
            lemma_find_skip(self@.ports, label@, i as int);
        }
        None
    }

    pub fn has_port_by_label(&self, label: &str) -> (r: bool)
        ensures
            r == self@.has_label(label@),
    {
        self.first_port_by_label(label).is_some()
    }

    pub fn get_port_labels(&self) -> (r: Vec<String>)
        ensures
            r@.len() == self@.ports.len(),
            forall|i: int| 0 <= i < r@.len() ==> #[trigger] r@[i]@ == self@.ports[i].label,
    {
        let mut out: Vec<String> = Vec::new();
        let mut i: usize = 0;
        while i < self.ports.len()
            invariant
                i <= self.ports@.len(),
                out@.len() == i,
                forall|j: int| 0 <= j < i ==> #[trigger] out@[j]@ == self@.ports[j].label,
            decreases self.ports@.len() - i,
        {
            out.push(self.ports[i].get_label());
            i = i + 1;
        }
        out
    }

    pub fn set_name(&mut self, name: &str)
        ensures
            final(self)@ == (NodeView { name: name@, ..old(self)@ }),
    {
        self.name = name.to_owned();
    }

    pub fn set_media_name(&mut self, media_name: &str)
        ensures
            final(self)@ == (NodeView { media_name: media_name@, ..old(self)@ }),
    {
        self.media_name = media_name.to_owned();
    }

    pub fn add_port(&mut self, port: Port)
        requires
            old(self)@.wf(),
        ensures
            final(self)@ == old(self)@.with_port(port@),
            final(self)@.wf(),
    {
        let ghost pv = port@;
        match self.position_of(port.id) {
            Some(i) => {
                self.ports.set(i, port);
                proof {
                    assert(self@.ports =~= old(self)@.ports.update(i as int, pv));
                }
            },
            None => {
                self.ports.push(port);
                proof {
                    assert(self@.ports =~= old(self)@.ports.push(pv));
                }
            },
        }
    }

    pub fn remove_port(&mut self, port_id: u32)
        requires
            old(self)@.wf(),
        ensures
            final(self)@ == old(self)@.without_port(port_id),
            final(self)@.wf(),
    {
        match self.position_of(port_id) {
            Some(i) => {
                self.ports.remove(i);
                proof {
                    assert(self@.ports =~= old(self)@.ports.remove(i as int));
                }
            },
            None => {},
        }
    }
}

} // verus!
