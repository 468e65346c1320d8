//! Declarations and type references, grouped by scope and name.
//!
//! Every identifier node is an occurrence of one category: a type definition, an
//! error, a method, a struct field (scoped to its struct), an enum member (scoped to
//! its enum), or a type reference. Two occurrences share a key when their category,
//! scope included, and their text agree.

use vstd::prelude::*;
use crate::tree::{kind, parent, span, text, wf, DocView, Document, NodeKind, Span};

verus! {

/// What an identifier occurrence declares or uses, with its scope.
#[derive(Clone, Copy, Debug, PartialEq, Eq, Structural)]
pub enum Category {
    TypeDef,
    Error,
    Method,
    /// A field of the struct at this node index.
    Field(usize),
    /// A member of the enum at this node index.
    Member(usize),
    TypeRef,
}

/// The category of node `i`, if it is an identifier occurrence.
pub open spec fn category(d: DocView, i: int) -> Option<Category> {
    match kind(d, i) {
        NodeKind::Name => match parent(d, i) {
            Some(q) => match kind(d, q) {
                NodeKind::Typedef => Some(Category::TypeDef),
                NodeKind::Error => Some(Category::Error),
                NodeKind::Method => Some(Category::Method),
                NodeKind::Typeref => Some(Category::TypeRef),
                _ => None,
            },
            None => None,
        },
        NodeKind::FieldName => match parent(d, i) {
            Some(q) => if kind(d, q) == NodeKind::StructField {
                match parent(d, q) {
                    Some(s) => if kind(d, s) == NodeKind::Struct {
                        Some(Category::Field(s as usize))
                    } else {
                        None
                    },
                    None => None,
                }
            } else {
                None
            },
            None => None,
        },
        NodeKind::EnumMember => match parent(d, i) {
            Some(q) => if kind(d, q) == NodeKind::Enum {
                Some(Category::Member(q as usize))
            } else {
                None
            },
            None => None,
        },
        _ => None,
    }
}

/// Declarations, as opposed to type references.
pub open spec fn is_declaration(c: Category) -> bool {
    !(c is TypeRef)
}

/// Node `j` is an occurrence with the same key as node `i`.
pub open spec fn same_key(d: DocView, i: int, j: int) -> bool {
    &&& category(d, i) is Some
    &&& category(d, j) == category(d, i)
    &&& text(d, j) == text(d, i)
}

/// The spans, in document order, of the occurrences among the first `k` nodes that
/// share node `i`'s key.
pub open spec fn spans_with_key(d: DocView, i: int, k: int) -> Seq<Span>
    decreases k,
{
    if k <= 0 {
        Seq::empty()
    } else if same_key(d, i, k - 1) {
        spans_with_key(d, i, k - 1).push(span(d, k - 1))
    } else {
        spans_with_key(d, i, k - 1)
    }
}

/// The same, leaving out node `i` itself.
pub open spec fn other_spans(d: DocView, i: int, k: int) -> Seq<Span>
    decreases k,
{
    if k <= 0 {
        Seq::empty()
    } else if k - 1 != i && same_key(d, i, k - 1) {
        other_spans(d, i, k - 1).push(span(d, k - 1))
    } else {
        other_spans(d, i, k - 1)
    }
}

/// How many occurrences in the whole document share node `i`'s key.
pub open spec fn key_count(d: DocView, i: int) -> nat {
    spans_with_key(d, i, d.nodes.len() as int).len()
}

/// Node `i` is the first occurrence of its key.
pub open spec fn is_first(d: DocView, i: int) -> bool {
    &&& category(d, i) is Some
    &&& forall|j: int| 0 <= j < i ==> !same_key(d, i, j)
}

/// The spans, in document order, of the type definitions among the first `k` nodes
/// whose name is node `i`'s text.
pub open spec fn defs_named(d: DocView, i: int, k: int) -> Seq<Span>
    decreases k,
{
    if k <= 0 {
        Seq::empty()
    } else if category(d, k - 1) == Some(Category::TypeDef) && text(d, k - 1) == text(d, i) {
        defs_named(d, i, k - 1).push(span(d, k - 1))
    } else {
        defs_named(d, i, k - 1)
    }
}

/// Counting an occurrence's key, the occurrence itself included.
pub proof fn lemma_key_count_others(d: DocView, i: int, k: int)
    requires
        category(d, i) is Some,
        0 <= k,
    ensures
        spans_with_key(d, i, k).len() == other_spans(d, i, k).len() + (if i < k {
            1int
        } else {
            0int
        }),
    decreases k,
{
    if k > 0 {
        lemma_key_count_others(d, i, k - 1);
    }
}

/// Occurrences that share a key see the same occurrences of it.
pub proof fn lemma_same_key_spans(d: DocView, i: int, j: int, k: int)
    requires
        same_key(d, i, j),
    ensures
        spans_with_key(d, i, k) == spans_with_key(d, j, k),
    decreases k,
{
    if k > 0 {
        lemma_same_key_spans(d, i, j, k - 1);
    }
}

/// Nodes with the same text see the same definitions of it.
pub proof fn lemma_same_text_defs(d: DocView, i: int, j: int, k: int)
    requires
        text(d, i) == text(d, j),
    ensures
        defs_named(d, i, k) == defs_named(d, j, k),
    decreases k,
{
    if k > 0 {
        lemma_same_text_defs(d, i, j, k - 1);
    }
}

/// One entry of the symbol table: a key and the spans of its occurrences.
pub struct SymbolGroup {
    pub category: Category,
    pub name: Vec<u8>,
    pub spans: Vec<Span>,
}

pub struct GroupView {
    pub category: Category,
    pub name: Seq<u8>,
    pub spans: Seq<Span>,
}

impl View for SymbolGroup {
    type V = GroupView;

    open spec fn view(&self) -> GroupView {
        GroupView { category: self.category, name: self.name@, spans: self.spans@ }
    }
}

pub open spec fn group_of(d: DocView, i: int) -> GroupView {
    GroupView {
        category: category(d, i)->0,
        name: text(d, i),
        spans: spans_with_key(d, i, d.nodes.len() as int),
    }
}

/// The groups of the keys first met among the first `k` nodes, in the order met.
pub open spec fn table_upto(d: DocView, k: int) -> Seq<GroupView>
    decreases k,
{
    if k <= 0 {
        Seq::empty()
    } else if is_first(d, k - 1) {
        table_upto(d, k - 1).push(group_of(d, k - 1))
    } else {
        table_upto(d, k - 1)
    }
}

/// The symbol table of a document.
pub open spec fn symbol_table(d: DocView) -> Seq<GroupView> {
    table_upto(d, d.nodes.len() as int)
}

/// The category of node `i`, if it is an identifier occurrence.
pub fn category_of(doc: &Document, i: usize) -> (r: Option<Category>)
    requires
        i < doc@.nodes.len(),
    ensures
        r == category(doc@, i as int),
{
    proof {
        use_type_invariant(doc);
    }
    let nodes = doc.nodes();
    let n = nodes[i];
    assert(crate::tree::fault_of(doc@, i as int) is None);
    match n.kind {
        NodeKind::Name => match n.parent {
            Some(q) => match nodes[q].kind {
                NodeKind::Typedef => Some(Category::TypeDef),
                NodeKind::Error => Some(Category::Error),
                NodeKind::Method => Some(Category::Method),
                NodeKind::Typeref => Some(Category::TypeRef),
                _ => None,
            },
            None => None,
        },
        NodeKind::FieldName => match n.parent {
            Some(q) => {
                let field = nodes[q];
                assert(crate::tree::fault_of(doc@, q as int) is None);
                if field.kind == NodeKind::StructField {
                    match field.parent {
                        Some(s) => if nodes[s].kind == NodeKind::Struct {
                            Some(Category::Field(s))
                        } else {
                            None
                        },
                        None => None,
                    }
                } else {
                    None
                }
            },
            None => None,
        },
        NodeKind::EnumMember => match n.parent {
            Some(q) => if nodes[q].kind == NodeKind::Enum {
                Some(Category::Member(q))
            } else {
                None
            },
            None => None,
        },
        _ => None,
    }
}

/// Nodes `i` and `j` have the same source text.
pub fn same_text(doc: &Document, i: usize, j: usize) -> (r: bool)
    requires
        i < doc@.nodes.len(),
        j < doc@.nodes.len(),
    ensures
        r == (text(doc@, i as int) == text(doc@, j as int)),
{
    proof {
        use_type_invariant(doc);
        assert(crate::tree::fault_of(doc@, i as int) is None);
        assert(crate::tree::fault_of(doc@, j as int) is None);
    }
    let nodes = doc.nodes();
    let src = doc.source();
    let (a, b) = (nodes[i], nodes[j]);
    let len = a.end_byte - a.start_byte;
    if b.end_byte - b.start_byte != len {
        assert(text(doc@, i as int).len() != text(doc@, j as int).len());
        return false;
    }
    let mut k: usize = 0;
    while k < len
        invariant
            src@ == doc@.source,
            a.start_byte + len <= src@.len(),
            b.start_byte + len <= src@.len(),
            a == doc@.nodes[i as int],
            b == doc@.nodes[j as int],
            len == a.end_byte - a.start_byte,
            len == b.end_byte - b.start_byte,
            k <= len,
            forall|m: int| 0 <= m < k ==> #[trigger] text(doc@, i as int)[m] == text(doc@, j as int)[m],
        decreases len - k,
    {
        if src[a.start_byte + k] != src[b.start_byte + k] {
            assert(text(doc@, i as int)[k as int] != text(doc@, j as int)[k as int]);
            return false;
        }
        k = k + 1;
    }
    assert(text(doc@, i as int) =~= text(doc@, j as int));
    true
}

/// Node `j` is an occurrence of the key `(c, text of i)`.
fn has_key(doc: &Document, i: usize, c: Category, j: usize) -> (r: bool)
    requires
        i < doc@.nodes.len(),
        j < doc@.nodes.len(),
        category(doc@, i as int) == Some(c),
    ensures
        r == same_key(doc@, i as int, j as int),
{
    match category_of(doc, j) {
        Some(cj) => cj == c && same_text(doc, j, i),
        None => false,
    }
}

/// The source text of node `i`.
pub fn text_of(doc: &Document, i: usize) -> (r: Vec<u8>)
    requires
        i < doc@.nodes.len(),
    ensures
        r@ == text(doc@, i as int),
{
    proof {
        use_type_invariant(doc);
        assert(crate::tree::fault_of(doc@, i as int) is None);
    }
    let n = doc.nodes()[i];
    let src = doc.source();
    let mut r: Vec<u8> = Vec::new();
    let mut k = n.start_byte;
    while k < n.end_byte
        invariant
            src@ == doc@.source,
            n == doc@.nodes[i as int],
            n.start_byte <= k <= n.end_byte <= src@.len(),
            r@ == src@.subrange(n.start_byte as int, k as int),
        decreases n.end_byte - k,
    {
        r.push(src[k]);
        k = k + 1;
        assert(r@ =~= src@.subrange(n.start_byte as int, k as int));
    }
    r
}

/// The spans of every occurrence sharing node `i`'s key, in document order.
fn key_spans(doc: &Document, i: usize, c: Category) -> (r: Vec<Span>)
    requires
        i < doc@.nodes.len(),
        category(doc@, i as int) == Some(c),
    ensures
        r@ == spans_with_key(doc@, i as int, doc@.nodes.len() as int),
{
    let n = doc.len();
    let mut r: Vec<Span> = Vec::new();
    let mut j: usize = 0;
    while j < n
        invariant
            n == doc@.nodes.len(),
            i < n,
            category(doc@, i as int) == Some(c),
            j <= n,
            r@ == spans_with_key(doc@, i as int, j as int),
        decreases n - j,
    {
        if has_key(doc, i, c, j) {
            r.push(doc.nodes()[j].span);
        }
        j = j + 1;
    }
    r
}

/// Node `i` is the first occurrence of its key `c`.
pub(crate) fn first_of_key(doc: &Document, i: usize, c: Category) -> (r: bool)
    requires
        i < doc@.nodes.len(),
        category(doc@, i as int) == Some(c),
    ensures
        r == is_first(doc@, i as int),
{
    let mut j: usize = 0;
    while j < i
        invariant
            i < doc@.nodes.len(),
            category(doc@, i as int) == Some(c),
            j <= i,
            forall|m: int| 0 <= m < j ==> !same_key(doc@, i as int, m),
        decreases i - j,
    {
        if has_key(doc, i, c, j) {
            return false;
        }
        j = j + 1;
    }
    true
}

/// The symbol table: for each key, in the order in which keys first occur, the spans
/// of all its occurrences in document order.
pub fn build_symbol_table(doc: &Document) -> (r: Vec<SymbolGroup>)
    ensures
        r@.map_values(|g: SymbolGroup| g@) == symbol_table(doc@),
{
    let n = doc.len();
    let mut r: Vec<SymbolGroup> = Vec::new();
    let mut i: usize = 0;
    while i < n
        invariant
            n == doc@.nodes.len(),
            i <= n,
            r@.map_values(|g: SymbolGroup| g@) == table_upto(doc@, i as int),
        decreases n - i,
    {
        match category_of(doc, i) {
            Some(c) => {
                if first_of_key(doc, i, c) {
                    let g = SymbolGroup {
                        category: c,
                        name: text_of(doc, i),
                        spans: key_spans(doc, i, c),
                    };
                    r.push(g);
                }
            },
            None => {},
        }
        proof {
            assert(r@.map_values(|g: SymbolGroup| g@) =~= table_upto(doc@, i + 1));
        }
        i = i + 1;
    }
    r
}

} // verus!
