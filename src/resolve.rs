//! Identifier-centred operations: goto-definition, find-references, and rename.

use vstd::prelude::*;
use crate::span_index::{capture_at, capture_spec};
use crate::symbols::{category, category_of, defs_named, same_text, Category};
use crate::tree::{
    first_child, kind, parent, span, span_touches, text, touches, wf, DocView, Document, NodeKind, Position,
    Span,
};

verus! {

/// Identifiers that a rename can start from: declared names and type-reference names.
pub open spec fn is_renameable(k: NodeKind) -> bool {
    k == NodeKind::Name || k == NodeKind::FieldName || k == NodeKind::EnumMember
}

/// A rename of this occurrence rewrites every type definition and type reference of
/// the same name; any other identifier is rewritten alone.
pub open spec fn is_type_name(d: DocView, i: int) -> bool {
    category(d, i) == Some(Category::TypeDef) || category(d, i) == Some(Category::TypeRef)
}

/// Node `j` is a type-reference name (`want_ref`) or a renameable identifier.
pub open spec fn is_wanted(d: DocView, j: int, want_ref: bool) -> bool {
    if want_ref {
        category(d, j) == Some(Category::TypeRef)
    } else {
        is_renameable(kind(d, j))
    }
}

/// The last of the first `k` nodes that touches `p` and is wanted.
pub open spec fn last_touching(d: DocView, p: Position, k: int, want_ref: bool) -> Option<int>
    decreases k,
{
    if k <= 0 {
        None
    } else if touches(span(d, k - 1), p) && is_wanted(d, k - 1, want_ref) {
        Some(k - 1)
    } else {
        last_touching(d, p, k - 1, want_ref)
    }
}

/// The innermost renameable identifier under the cursor.
pub open spec fn ident_at(d: DocView, p: Position) -> Option<int> {
    last_touching(d, p, d.nodes.len() as int, false)
}

/// The innermost type-reference name under the cursor.
pub open spec fn reference_at(d: DocView, p: Position) -> Option<int> {
    last_touching(d, p, d.nodes.len() as int, true)
}

/// The type-reference occurrences among the first `k` nodes named like node `i`.
pub open spec fn refs_named(d: DocView, i: int, k: int) -> Seq<Span>
    decreases k,
{
    if k <= 0 {
        Seq::empty()
    } else if category(d, k - 1) == Some(Category::TypeRef) && text(d, k - 1) == text(d, i) {
        refs_named(d, i, k - 1).push(span(d, k - 1))
    } else {
        refs_named(d, i, k - 1)
    }
}

/// The type-name occurrences among the first `k` nodes named like node `i`.
pub open spec fn type_name_nodes(d: DocView, i: int, k: int) -> Seq<int>
    decreases k,
{
    if k <= 0 {
        Seq::empty()
    } else if is_type_name(d, k - 1) && text(d, k - 1) == text(d, i) {
        type_name_nodes(d, i, k - 1).push(k - 1)
    } else {
        type_name_nodes(d, i, k - 1)
    }
}

/// The occurrences that renaming identifier `i` rewrites, in document order.
pub open spec fn rename_nodes(d: DocView, i: int) -> Seq<int> {
    if is_type_name(d, i) {
        type_name_nodes(d, i, d.nodes.len() as int)
    } else {
        seq![i]
    }
}

/// The name of the type definition enclosing the cursor.
pub open spec fn enclosing_typedef_name(d: DocView, p: Position) -> Option<int> {
    match capture_spec(d, p, NodeKind::Typedef) {
        Some(t) => first_child(d, t, NodeKind::Name),
        None => None,
    }
}

/// A replacement of the text in `span`.
pub struct TextEdit {
    pub span: Span,
    pub new_text: Vec<u8>,
}

/// The last node touching `p` that is a renameable identifier (`want_ref` false) or
/// a type-reference name (`want_ref` true).
fn last_touching_exec(doc: &Document, p: Position, want_ref: bool) -> (r: Option<usize>)
    ensures
        crate::tree::as_index(r) == last_touching(doc@, p, doc@.nodes.len() as int, want_ref),
        r matches Some(i) ==> i < doc@.nodes.len(),
{
    let ghost d = doc@;
    let nodes = doc.nodes();
    let n = nodes.len();
    let mut k = n;
    while k > 0
        invariant
            d == doc@,
            nodes@ == d.nodes,
            k <= n == d.nodes.len(),
            last_touching(d, p, k as int, want_ref) == last_touching(d, p, n as int, want_ref),
        decreases k,
    {
        let j = k - 1;
        if span_touches(nodes[j].span, p) {
            let wanted = if want_ref {
                match category_of(doc, j) {
                    Some(Category::TypeRef) => true,
                    _ => false,
                }
            } else {
                match nodes[j].kind {
                    NodeKind::Name | NodeKind::FieldName | NodeKind::EnumMember => true,
                    _ => false,
                }
            };
            if wanted {
                return Some(j);
            }
        }
        k = j;
    }
    None
}

/// Spans of the type definitions (`want_refs` false) or type references (`want_refs`
/// true) named like node `i`, in document order.
fn spans_named(doc: &Document, i: usize, want_refs: bool) -> (r: Vec<Span>)
    requires
        i < doc@.nodes.len(),
    ensures
        r@ == if want_refs {
            refs_named(doc@, i as int, doc@.nodes.len() as int)
        } else {
            defs_named(doc@, i as int, doc@.nodes.len() as int)
        },
{
    let ghost d = doc@;
    let n = doc.len();
    let mut r: Vec<Span> = Vec::new();
    let mut j: usize = 0;
    while j < n
        invariant
            d == doc@,
            n == d.nodes.len(),
            i < n,
            j <= n,
            r@ == if want_refs {
                refs_named(d, i as int, j as int)
            } else {
                defs_named(d, i as int, j as int)
            },
        decreases n - j,
    {
        let in_kind = match category_of(doc, j) {
            Some(Category::TypeRef) => want_refs,
            Some(Category::TypeDef) => !want_refs,
            _ => false,
        };
        if in_kind && same_text(doc, j, i) {
            r.push(doc.nodes()[j].span);
        }
        j = j + 1;
    }
    r
}

/// The type definitions named by the type reference under the cursor: none when the
/// cursor is on no type reference, several when the name is defined more than once.
pub fn goto_definition(doc: &Document, p: Position) -> (r: Option<Vec<Span>>)
    ensures
        match reference_at(doc@, p) {
            Some(i) => r matches Some(v) && v@ == defs_named(doc@, i, doc@.nodes.len() as int),
            None => r is None,
        },
{
    match last_touching_exec(doc, p, true) {
        Some(i) => Some(spans_named(doc, i, false)),
        None => None,
    }
}

/// The type references to the type definition enclosing the cursor, by name; the
/// definitions themselves are not included. None when no type definition with a
/// name encloses the cursor.
pub fn references(doc: &Document, p: Position) -> (r: Option<Vec<Span>>)
    ensures
        match enclosing_typedef_name(doc@, p) {
            Some(i) => r matches Some(v) && v@ == refs_named(doc@, i, doc@.nodes.len() as int),
            None => r is None,
        },
{
    let t = match capture_at(doc, p, NodeKind::Typedef) {
        Some(t) => t,
        None => {
            return None;
        },
    };
    proof {
        crate::span_index::lemma_capture_in_range(doc@, p, NodeKind::Typedef);
    }
    match doc.first_child(t, NodeKind::Name) {
        Some(i) => Some(spans_named(doc, i, true)),
        None => None,
    }
}

/// The span of the renameable identifier under the cursor.
pub fn prepare_rename(doc: &Document, p: Position) -> (r: Option<Span>)
    ensures
        match ident_at(doc@, p) {
            Some(i) => r == Some(span(doc@, i)),
            None => r is None,
        },
{
    match last_touching_exec(doc, p, false) {
        Some(i) => Some(doc.nodes()[i].span),
        None => None,
    }
}

fn copy_name(v: &Vec<u8>) -> (r: Vec<u8>)
    ensures
        r@ == v@,
{
    let mut r: Vec<u8> = Vec::new();
    let mut k: usize = 0;
    while k < v.len()
        invariant
            k <= v@.len(),
            r@ == v@.subrange(0, k as int),
        decreases v@.len() - k,
    {
        r.push(v[k]);
        k = k + 1;
        assert(r@ =~= v@.subrange(0, k as int));
    }
    assert(r@ =~= v@);
    r
}

/// The edits that rename the identifier under the cursor to `new_name`: every type
/// definition and type reference of the name when it is a type name, else the one
/// identifier. None when the cursor is on no renameable identifier.
pub fn rename(doc: &Document, p: Position, new_name: &Vec<u8>) -> (r: Option<Vec<TextEdit>>)
    ensures
        match ident_at(doc@, p) {
            Some(i) => r matches Some(es) && {
                let targets = rename_nodes(doc@, i);
                &&& es@.len() == targets.len()
                &&& forall|k: int|
                    0 <= k < targets.len() ==> (#[trigger] es@[k]).span == span(doc@, targets[k])
                        && es@[k].new_text@ == new_name@
            },
            None => r is None,
        },
{
    let ghost d = doc@;
    let i = match last_touching_exec(doc, p, false) {
        Some(i) => i,
        None => {
            return None;
        },
    };
    let nodes = doc.nodes();
    let n = nodes.len();
    let mut edits: Vec<TextEdit> = Vec::new();
    let whole_type = match category_of(doc, i) {
        Some(Category::TypeDef) => true,
        Some(Category::TypeRef) => true,
        _ => false,
    };
    if !whole_type {
        edits.push(TextEdit { span: nodes[i].span, new_text: copy_name(new_name) });
        return Some(edits);
    }
    let mut j: usize = 0;
    while j < n
        invariant
            d == doc@,
            nodes@ == d.nodes,
            n == d.nodes.len(),
            i < n,
            j <= n,
            is_type_name(d, i as int),
            edits@.len() == type_name_nodes(d, i as int, j as int).len(),
            forall|k: int|
                0 <= k < edits@.len() ==> (#[trigger] edits@[k]).span == span(
                    d,
                    type_name_nodes(d, i as int, j as int)[k],
                ) && edits@[k].new_text@ == new_name@,
        decreases n - j,
    {
        let is_type = match category_of(doc, j) {
            Some(Category::TypeDef) => true,
            Some(Category::TypeRef) => true,
            _ => false,
        };
        if is_type && same_text(doc, j, i) {
            edits.push(TextEdit { span: nodes[j].span, new_text: copy_name(new_name) });
        }
        j = j + 1;
    }
    Some(edits)
}

/// Node for node, the two documents have the same kinds and parents.
pub open spec fn same_shape(d: DocView, e: DocView) -> bool {
    &&& d.nodes.len() == e.nodes.len()
    &&& forall|j: int|
        0 <= j < d.nodes.len() ==> (#[trigger] e.nodes[j]).kind == d.nodes[j].kind
            && e.nodes[j].parent == d.nodes[j].parent
}

proof fn lemma_category_same_shape(d: DocView, e: DocView, j: int)
    requires
        same_shape(d, e),
        0 <= j < d.nodes.len(),
    ensures
        category(e, j) == category(d, j),
{
    assert(e.nodes[j].kind == d.nodes[j].kind);
    if let Some(q) = parent(d, j) {
        assert(e.nodes[q].kind == d.nodes[q].kind);
        if let Some(s) = parent(d, q) {
            assert(e.nodes[s].kind == d.nodes[s].kind);
        }
    }
}

proof fn lemma_type_name_count(d: DocView, i: int, k: int)
    ensures
        type_name_nodes(d, i, k).len() == defs_named(d, i, k).len() + refs_named(d, i, k).len(),
    decreases k,
{
    if k > 0 {
        lemma_type_name_count(d, i, k - 1);
    }
}

proof fn lemma_type_name_nodes_renamed(d: DocView, e: DocView, i: int, i2: int, k: int)
    requires
        same_shape(d, e),
        0 <= k <= d.nodes.len(),
        forall|j: int|
            0 <= j < d.nodes.len() && #[trigger] is_type_name(d, j) ==> (text(d, j) == text(d, i)
                <==> text(e, j) == text(e, i2)),
    ensures
        type_name_nodes(e, i2, k) == type_name_nodes(d, i, k),
    decreases k,
{
    if k > 0 {
        lemma_type_name_nodes_renamed(d, e, i, i2, k - 1);
        lemma_category_same_shape(d, e, k - 1);
        if is_type_name(d, k - 1) {
            assert(text(d, k - 1) == text(d, i) <==> text(e, k - 1) == text(e, i2));
        }
    }
}

/// Renaming a type name rewrites one occurrence for each definition and each
/// reference of that name. In the document that results, where exactly those
/// type-name occurrences carry the new name, renaming from any one of them rewrites
/// the same occurrences again.
pub proof fn lemma_rename_round_trip(d: DocView, e: DocView, i: int, i2: int)
    requires
        0 <= i < d.nodes.len(),
        is_type_name(d, i),
        same_shape(d, e),
        0 <= i2 < d.nodes.len(),
        is_type_name(d, i2),
        text(d, i2) == text(d, i),
        forall|j: int|
            0 <= j < d.nodes.len() && #[trigger] is_type_name(d, j) ==> (text(d, j) == text(d, i)
                <==> text(e, j) == text(e, i2)),
    ensures
        rename_nodes(d, i).len() == defs_named(d, i, d.nodes.len() as int).len() + refs_named(
            d,
            i,
            d.nodes.len() as int,
        ).len(),
        rename_nodes(e, i2) == rename_nodes(d, i),
{
    lemma_type_name_count(d, i, d.nodes.len() as int);
    lemma_category_same_shape(d, e, i2);
    lemma_type_name_nodes_renamed(d, e, i, i2, d.nodes.len() as int);
}

} // verus!
