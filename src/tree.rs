//! The flattened syntax tree that every query reads.
//!
//! A document is the sequence of its syntax nodes in document order (pre-order of the
//! tree, so sorted by start position), each naming its parent by index, together with
//! the source bytes that the nodes' byte ranges point into.

use vstd::prelude::*;

verus! {

/// A zero-based line and a column within that line.
#[derive(Clone, Copy, Debug, PartialEq, Eq, Structural)]
pub struct Position {
    pub line: u32,
    pub character: u32,
}

/// A half-open range `[start, end)` of positions.
#[derive(Clone, Copy, Debug, PartialEq, Eq, Structural)]
pub struct Span {
    pub start: Position,
    pub end: Position,
}

/// The closed set of syntax node kinds that the analysis distinguishes.
#[derive(Clone, Copy, Debug, PartialEq, Eq, Structural)]
pub enum NodeKind {
    /// The root of a document.
    Interface,
    /// `interface org.example.name`
    InterfaceDeclaration,
    InterfaceName,
    /// `type Name (...)`
    Typedef,
    /// `error Name (...)`
    Error,
    /// `method Name (...) -> (...)`
    Method,
    Struct,
    StructField,
    /// The name of a struct field.
    FieldName,
    Enum,
    /// The name of an enum member.
    EnumMember,
    /// A use of a type name.
    Typeref,
    /// The identifier of a type definition, error, method or type reference.
    Name,
    Comment,
    /// An end-of-line token.
    Eol,
    /// `interface`, `type`, `error`, `method`.
    Keyword,
    /// `bool`, `int`, `float`, `string`, `object`, `any`.
    BuiltinType,
    /// The `->` of a method.
    Arrow,
    /// Any other node.
    Other,
}

/// One syntax node: its kind, its line/column span, its byte range in the source, and
/// the index of its parent in the document's node sequence.
#[derive(Clone, Copy, Debug)]
pub struct Node {
    pub kind: NodeKind,
    pub span: Span,
    pub start_byte: usize,
    pub end_byte: usize,
    pub parent: Option<usize>,
}

pub open spec fn pos_le(a: Position, b: Position) -> bool {
    a.line < b.line || (a.line == b.line && a.character <= b.character)
}

pub open spec fn pos_lt(a: Position, b: Position) -> bool {
    !pos_le(b, a)
}

/// `p` lies inside the half-open span.
pub open spec fn covers(s: Span, p: Position) -> bool {
    pos_le(s.start, p) && pos_lt(p, s.end)
}

/// `p` lies inside the span or on its end: a cursor touching an identifier.
pub open spec fn touches(s: Span, p: Position) -> bool {
    pos_le(s.start, p) && pos_le(p, s.end)
}

pub open spec fn contains_span(outer: Span, inner: Span) -> bool {
    pos_le(outer.start, inner.start) && pos_le(inner.end, outer.end)
}

pub fn position_le(a: Position, b: Position) -> (r: bool)
    ensures
        r == pos_le(a, b),
{
    a.line < b.line || (a.line == b.line && a.character <= b.character)
}

pub fn span_covers(s: Span, p: Position) -> (r: bool)
    ensures
        r == covers(s, p),
{
    position_le(s.start, p) && !position_le(s.end, p)
}

pub fn span_touches(s: Span, p: Position) -> (r: bool)
    ensures
        r == touches(s, p),
{
    position_le(s.start, p) && position_le(p, s.end)
}

/// Appends `s` to `out`.
pub(crate) fn push_bytes(out: &mut Vec<u8>, s: &[u8])
    ensures
        final(out)@ == old(out)@ + s@,
{
    let ghost start = out@;
    let mut k: usize = 0;
    while k < s.len()
        invariant
            k <= s@.len(),
            out@ == start + s@.subrange(0, k as int),
        decreases s@.len() - k,
    {
        out.push(s[k]);
        k = k + 1;
        assert(out@ =~= start + s@.subrange(0, k as int));
    }
    assert(s@.subrange(0, k as int) =~= s@);
}

/// What a document is, mathematically.
pub struct DocView {
    pub nodes: Seq<Node>,
    pub source: Seq<u8>,
}

/// The ways in which a node can break the shape that queries rely on.
#[derive(Clone, Copy, Debug, PartialEq, Eq, Structural)]
pub enum TreeFault {
    /// The byte range is inverted or reaches past the source.
    ByteRange,
    /// The span ends before it starts.
    InvertedSpan,
    /// The node starts before the node preceding it.
    Unsorted,
    /// The parent index does not name an earlier node.
    Parent,
    /// The span is not inside the parent's span.
    Escapes,
}

/// The node at `index` is the first one that breaks the shape of a tree.
#[derive(Clone, Copy, Debug, PartialEq, Eq, Structural)]
pub struct TreeError {
    pub index: usize,
    pub fault: TreeFault,
}

/// The first fault of node `i`, checked in the order of `TreeFault`'s variants.
pub open spec fn fault_of(d: DocView, i: int) -> Option<TreeFault> {
    let n = d.nodes[i];
    if !(n.start_byte <= n.end_byte && n.end_byte <= d.source.len()) {
        Some(TreeFault::ByteRange)
    } else if !pos_le(n.span.start, n.span.end) {
        Some(TreeFault::InvertedSpan)
    } else if i > 0 && !pos_le(d.nodes[i - 1].span.start, n.span.start) {
        Some(TreeFault::Unsorted)
    } else {
        match n.parent {
            Some(q) => if q >= i {
                Some(TreeFault::Parent)
            } else if !contains_span(d.nodes[q as int].span, n.span) {
                Some(TreeFault::Escapes)
            } else {
                None
            },
            None => None,
        }
    }
}

/// Every node is in order, inside its parent, and points into the source.
pub open spec fn wf(d: DocView) -> bool {
    forall|i: int| 0 <= i < d.nodes.len() ==> #[trigger] fault_of(d, i) is None
}

/// The source text of node `i`.
pub open spec fn text(d: DocView, i: int) -> Seq<u8> {
    d.source.subrange(d.nodes[i].start_byte as int, d.nodes[i].end_byte as int)
}

pub open spec fn kind(d: DocView, i: int) -> NodeKind {
    d.nodes[i].kind
}

pub open spec fn span(d: DocView, i: int) -> Span {
    d.nodes[i].span
}

pub open spec fn start(d: DocView, i: int) -> Position {
    d.nodes[i].span.start
}

/// The parent of node `i`, when it names an earlier node.
pub open spec fn parent(d: DocView, i: int) -> Option<int> {
    match d.nodes[i].parent {
        Some(q) => if q < i {
            Some(q as int)
        } else {
            None
        },
        None => None,
    }
}

/// An optional node index, as a mathematical integer.
pub open spec fn as_index(r: Option<usize>) -> Option<int> {
    match r {
        Some(i) => Some(i as int),
        None => None,
    }
}

/// In a well-formed document, start positions never decrease.
pub proof fn lemma_sorted(d: DocView, a: int, b: int)
    requires
        wf(d),
        0 <= a <= b < d.nodes.len(),
    ensures
        pos_le(start(d, a), start(d, b)),
    decreases b - a,
{
    if a < b {
        lemma_sorted(d, a, b - 1);
        assert(fault_of(d, b) is None);
    }
}

/// The first child of node `t` of kind `k`, from node `j` on.
pub open spec fn child_from(d: DocView, t: int, k: NodeKind, j: int) -> Option<int>
    decreases d.nodes.len() - j,
{
    if j >= d.nodes.len() || j < 0 {
        None
    } else if parent(d, j) == Some(t) && kind(d, j) == k {
        Some(j)
    } else {
        child_from(d, t, k, j + 1)
    }
}

/// The first child of node `t` of kind `k`.
pub open spec fn first_child(d: DocView, t: int, k: NodeKind) -> Option<int> {
    child_from(d, t, k, t + 1)
}

/// A well-formed document.
pub struct Document {
    nodes: Vec<Node>,
    source: Vec<u8>,
}

impl View for Document {
    type V = DocView;

    closed spec fn view(&self) -> DocView {
        DocView { nodes: self.nodes@, source: self.source@ }
    }
}

fn node_fault(nodes: &Vec<Node>, source: &Vec<u8>, i: usize) -> (r: Option<TreeFault>)
    requires
        i < nodes@.len(),
    ensures
        r == fault_of(DocView { nodes: nodes@, source: source@ }, i as int),
{
    let n = nodes[i];
    if !(n.start_byte <= n.end_byte && n.end_byte <= source.len()) {
        Some(TreeFault::ByteRange)
    } else if !position_le(n.span.start, n.span.end) {
        Some(TreeFault::InvertedSpan)
    } else if i > 0 && !position_le(nodes[i - 1].span.start, n.span.start) {
        Some(TreeFault::Unsorted)
    } else {
        match n.parent {
            Some(q) => if q >= i {
                Some(TreeFault::Parent)
            } else {
                let ps = nodes[q].span;
                if !(position_le(ps.start, n.span.start) && position_le(n.span.end, ps.end)) {
                    Some(TreeFault::Escapes)
                } else {
                    None
                }
            },
            None => None,
        }
    }
}

impl Document {
    #[verifier::type_invariant]
    pub open spec fn inv(&self) -> bool {
        wf(self@)
    }

    /// Checks the shape of a flattened tree and takes it as a document; on failure,
    /// names the first node that breaks it.
    pub fn new(nodes: Vec<Node>, source: Vec<u8>) -> (r: Result<Document, TreeError>)
        ensures
            match r {
                Ok(doc) => doc@ == (DocView { nodes: nodes@, source: source@ }) && wf(doc@),
                Err(e) => {
                    let d = DocView { nodes: nodes@, source: source@ };
                    &&& e.index < nodes@.len()
                    &&& fault_of(d, e.index as int) == Some(e.fault)
                    &&& forall|j: int| 0 <= j < e.index ==> #[trigger] fault_of(d, j) is None
                },
            },
            r is Ok <==> wf(DocView { nodes: nodes@, source: source@ }),
    {
        let ghost d = DocView { nodes: nodes@, source: source@ };
        let mut i: usize = 0;
        while i < nodes.len()
            invariant
                i <= nodes@.len(),
                d == (DocView { nodes: nodes@, source: source@ }),
                forall|j: int| 0 <= j < i ==> #[trigger] fault_of(d, j) is None,
            decreases nodes@.len() - i,
        {
            match node_fault(&nodes, &source, i) {
                Some(fault) => {
                    return Err(TreeError { index: i, fault });
                },
                None => {},
            }
            i = i + 1;
        }
        Ok(Document { nodes, source })
    }

    pub fn nodes(&self) -> (r: &Vec<Node>)
        ensures
            r@ == self@.nodes,
    {
        &self.nodes
    }

    pub fn source(&self) -> (r: &Vec<u8>)
        ensures
            r@ == self@.source,
    {
        &self.source
    }

    /// The first child of node `t` of kind `k`.
    pub fn first_child(&self, t: usize, k: NodeKind) -> (r: Option<usize>)
        requires
            t < self@.nodes.len(),
        ensures
            as_index(r) == first_child(self@, t as int, k),
            r matches Some(i) ==> i < self@.nodes.len(),
    {
        let ghost d = self@;
        let n = self.nodes.len();
        let mut j = t + 1;
        while j < n
            invariant
                d == self@,
                n == d.nodes.len(),
                t < j <= n,
                child_from(d, t as int, k, j as int) == child_from(d, t as int, k, t + 1),
            decreases n - j,
        {
            let node = self.nodes[j];
            let is_child = match node.parent {
                Some(q) => q == t && t < j,
                None => false,
            };
            if is_child && node.kind == k {
                return Some(j);
            }
            j = j + 1;
        }
        None
    }

    pub fn len(&self) -> (r: usize)
        ensures
            r == self@.nodes.len(),
    {
        self.nodes.len()
    }
}

} // verus!
