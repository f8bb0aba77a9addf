//! Argument nodes: a fixed literal or an open argument of some kind, with an
//! ordered list of children, and the matching of an input against a subtree.
use vstd::prelude::*;
use crate::text::{is_prefix, starts_with};
use crate::value::{parses_as_f32, NodeData};

verus! {

/// Whether a node is a literal that must be typed, or a slot for any value.
pub enum NodeKind {
    Fixed,
    Argument,
}

/// One node of a command's argument tree; it owns its children.
pub struct Node {
    kind: NodeKind,
    data: NodeData,
    nodes: Vec<Node>,
}

/// The string contents of a list of strings.
pub open spec fn views(v: Seq<String>) -> Seq<Seq<char>> {
    v.map_values(|s: String| s@)
}

/// The concatenation, in order, of what each node of `nodes` yields on `input`.
pub open spec fn matches_all(nodes: Seq<Node>, input: Seq<char>) -> Seq<Seq<char>>
    decreases nodes,
{
    if nodes.len() == 0 {
        seq![]
    } else {
        matches_all(nodes.subrange(0, nodes.len() - 1), input) + nodes[nodes.len() - 1].matches(
            input,
        )
    }
}

impl Node {
    /// A fixed node holds a concrete value and an argument node holds none;
    /// a concrete float is held as text that parses as a float.
    #[verifier::type_invariant]
    pub closed spec fn well_formed(self) -> bool {
        &&& (self.kind is Fixed) == self.data.is_concrete()
        &&& (self.data matches NodeData::F32(Some(t)) ==> parses_as_f32(t@))
    }

    /// The node's kind.
    pub closed spec fn kind(self) -> NodeKind {
        self.kind
    }

    /// The node's value.
    pub closed spec fn data(self) -> NodeData {
        self.data
    }

    /// The node's children, in order.
    pub closed spec fn children(self) -> Seq<Node> {
        self.nodes@
    }

    /// What the node itself yields on a non-terminal input: `None` where it
    /// rejects the branch (a literal that does not start with the input, or
    /// an input that does not parse as the argument's kind).
    pub open spec fn own_result(self, input: Seq<char>) -> Option<Seq<char>> {
        match self.kind() {
            NodeKind::Fixed => if is_prefix(input, self.data().representative()) {
                Some(self.data().representative())
            } else {
                None
            },
            NodeKind::Argument => if self.data().accepts(input) {
                Some(self.data().kind_label())
            } else {
                None
            },
        }
    }

    /// The candidates that the subtree rooted here yields on `input`.
    pub open spec fn matches(self, input: Seq<char>) -> Seq<Seq<char>>
        decreases self,
    {
        if input.len() == 0 && self.children().len() == 0 {
            seq![self.data().representative()]
        } else {
            match self.own_result(input) {
                None => seq![],
                Some(r) => seq![r] + matches_all(self.children(), input),
            }
        }
    }
}

impl Node {
    /// A fixed node for the unsigned byte `value`, with no children.
    pub fn fixed_u8_new(value: u8) -> (r: Node)
        ensures
            r.kind() is Fixed,
            r.data() == NodeData::U8(Some(value)),
            r.children() == Seq::<Node>::empty(),
    {
        Node { kind: NodeKind::Fixed, data: NodeData::U8(Some(value)), nodes: Vec::new() }
    }

    /// A fixed node for the float rendered as `text`, with no children.
    pub fn fixed_f32_new(text: String) -> (r: Node)
        requires
            parses_as_f32(text@),
        ensures
            r.kind() is Fixed,
            r.data() == NodeData::F32(Some(text)),
            r.children() == Seq::<Node>::empty(),
    {
        Node { kind: NodeKind::Fixed, data: NodeData::F32(Some(text)), nodes: Vec::new() }
    }

    /// A fixed node for the text `value`, with no children.
    pub fn fixed_string_new(value: String) -> (r: Node)
        ensures
            r.kind() is Fixed,
            r.data() == NodeData::Text(Some(value)),
            r.children() == Seq::<Node>::empty(),
    {
        Node { kind: NodeKind::Fixed, data: NodeData::Text(Some(value)), nodes: Vec::new() }
    }

    /// An argument node for any unsigned byte, with no children.
    pub fn any_u8_new() -> (r: Node)
        ensures
            r.kind() is Argument,
            r.data() == NodeData::U8(None),
            r.children() == Seq::<Node>::empty(),
    {
        Node { kind: NodeKind::Argument, data: NodeData::U8(None), nodes: Vec::new() }
    }

    /// An argument node for any 32-bit float, with no children.
    pub fn any_f32_new() -> (r: Node)
        ensures
            r.kind() is Argument,
            r.data() == NodeData::F32(None),
            r.children() == Seq::<Node>::empty(),
    {
        Node { kind: NodeKind::Argument, data: NodeData::F32(None), nodes: Vec::new() }
    }

    /// An argument node for any text, with no children.
    pub fn any_string_new() -> (r: Node)
        ensures
            r.kind() is Argument,
            r.data() == NodeData::Text(None),
            r.children() == Seq::<Node>::empty(),
    {
        Node { kind: NodeKind::Argument, data: NodeData::Text(None), nodes: Vec::new() }
    }

    /// The same node with `node` appended as its last child.
    pub fn add_node(self, node: Node) -> (r: Node)
        ensures
            r.kind() == self.kind(),
            r.data() == self.data(),
            r.children() == self.children().push(node),
    {
        proof {
            use_type_invariant(&self);
        }
        let Node { kind, data, nodes } = self;
        let mut nodes = nodes;
        nodes.push(node);
        Node { kind, data, nodes }
    }

    /// Returns the candidates that the subtree rooted here yields on `input`:
    /// the node's own label or literal, then what each child yields on the
    /// same input, in order; nothing where the node rejects the input.
    pub fn check(&self, input: String) -> (r: Vec<String>)
        ensures
            views(r@) == self.matches(input@),
        decreases self,
    {
        if input.as_str().unicode_len() == 0 && self.nodes.len() == 0 {
            return vec![self.data.representative_string()];
        }
        let own = match self.kind {
            NodeKind::Fixed => {
                let text = self.data.representative_string();
                if starts_with(text.as_str(), input.as_str()) {
                    text
                } else {
                    return Vec::new();
                }
            },
            NodeKind::Argument => {
                if self.data.parses(input.as_str()) {
                    self.data.kind_label_string()
                } else {
                    return Vec::new();
                }
            },
        };
        let ghost first = own@;
        let mut responses: Vec<String> = vec![own];
        let mut i: usize = 0;
        while i < self.nodes.len()
            invariant
                i <= self.nodes@.len(),
                views(responses@) == seq![first] + matches_all(self.nodes@.subrange(0, i as int), input@),
            decreases self.nodes@.len() - i,
        {
            proof {
                assert(decreases_to!(self => self.nodes));
            }
            let mut more = self.nodes[i].check(input.clone());
            let ghost before = responses@;
            let ghost added = more@;
            responses.append(&mut more);
            proof {
                let sub = self.nodes@.subrange(0, i + 1);
                assert(sub.subrange(0, sub.len() - 1) =~= self.nodes@.subrange(0, i as int));
                assert(sub[sub.len() - 1] == self.nodes@[i as int]);
                assert(views(responses@) =~= views(before) + views(added));
                assert(matches_all(sub, input@) == matches_all(
                    self.nodes@.subrange(0, i as int),
                    input@,
                ) + self.nodes@[i as int].matches(input@));
                assert(views(responses@) =~= seq![first] + matches_all(sub, input@));
            }
            i = i + 1;
        }
        proof {
            assert(self.nodes@.subrange(0, self.nodes@.len() as int) =~= self.nodes@);
        }
        responses
    }
}

/// A fixed node yields at least one candidate on `s` exactly when its
/// literal starts with `s`.
pub proof fn lemma_fixed_yields_iff_prefix(n: Node, s: Seq<char>)
    requires
        n.kind() is Fixed,
    ensures
        n.matches(s).len() > 0 <==> is_prefix(s, n.data().representative()),
{
    if s.len() == 0 {
        assert(n.data().representative().subrange(0, 0) =~= s);
    }
}

/// An argument node yields at least one candidate on `s` exactly when `s`
/// parses as the node's kind, save for a numeric leaf on the empty input,
/// which yields its label as a terminal.
pub proof fn lemma_argument_yields_iff_parses(n: Node, s: Seq<char>)
    requires
        n.kind() is Argument,
        s.len() > 0 || n.children().len() > 0 || n.data() is Text,
    ensures
        n.matches(s).len() > 0 <==> n.data().accepts(s),
{
}

/// Matching depends on the tree and the input alone: equal trees on equal
/// inputs yield the same candidates in the same order.
pub proof fn lemma_matches_deterministic(a: Node, b: Node, s: Seq<char>, t: Seq<char>)
    requires
        a == b,
        s == t,
    ensures
        a.matches(s) == b.matches(t),
{
}

} // verus!
