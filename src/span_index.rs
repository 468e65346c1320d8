//! Positional queries over a document's node sequence.
//!
//! Every query starts from the rightmost node whose start is at or before the
//! position, found by binary search; among nodes with equal starts the later one in
//! document order, which is the deeper one, is preferred.

use vstd::prelude::*;
use crate::tree::{
    as_index, contains_span, covers, fault_of, kind, lemma_sorted, parent, pos_le, pos_lt, position_le, span, span_covers, start,
    wf, DocView, Document, NodeKind, Position,
};

verus! {

/// The rightmost node among the first `k` whose start is at or before `p`.
pub open spec fn last_start_le(d: DocView, p: Position, k: int) -> Option<int>
    decreases k,
{
    if k <= 0 {
        None
    } else if pos_le(start(d, k - 1), p) {
        Some(k - 1)
    } else {
        last_start_le(d, p, k - 1)
    }
}

/// The rightmost node whose start is at or before `p`: where every query starts.
pub open spec fn prec(d: DocView, p: Position) -> Option<int> {
    last_start_le(d, p, d.nodes.len() as int)
}

/// The narrowest node covering `p`, if the starting node covers it.
pub open spec fn leaf_spec(d: DocView, p: Position) -> Option<int> {
    match prec(d, p) {
        Some(i) => if covers(span(d, i), p) {
            Some(i)
        } else {
            None
        },
        None => None,
    }
}

/// From node `i` up through its parents, the first node that ends after `p`.
pub open spec fn walk_up(d: DocView, i: int, p: Position) -> Option<int>
    decreases i,
{
    if !(0 <= i < d.nodes.len()) {
        None
    } else if pos_lt(p, span(d, i).end) {
        Some(i)
    } else {
        match parent(d, i) {
            Some(q) => if 0 <= q < i {
                walk_up(d, q, p)
            } else {
                None
            },
            None => None,
        }
    }
}

/// The deepest node covering `p`.
pub open spec fn most_specific_spec(d: DocView, p: Position) -> Option<int> {
    match prec(d, p) {
        Some(i) => walk_up(d, i, p),
        None => None,
    }
}

/// From node `i` up through its parents, the first node of kind `k`.
pub open spec fn capture_up(d: DocView, i: int, k: NodeKind) -> Option<int>
    decreases i,
{
    if !(0 <= i < d.nodes.len()) {
        None
    } else if kind(d, i) == k {
        Some(i)
    } else {
        match parent(d, i) {
            Some(q) => if 0 <= q < i {
                capture_up(d, q, k)
            } else {
                None
            },
            None => None,
        }
    }
}

/// The deepest node of kind `k` that encloses the deepest node covering `p`.
pub open spec fn capture_spec(d: DocView, p: Position, k: NodeKind) -> Option<int> {
    match most_specific_spec(d, p) {
        Some(m) => capture_up(d, m, k),
        None => None,
    }
}

/// `c` is the number of nodes whose start is at or before `p`.
pub open spec fn is_cutoff(d: DocView, p: Position, c: int) -> bool {
    &&& 0 <= c <= d.nodes.len()
    &&& forall|i: int| 0 <= i < c ==> pos_le(#[trigger] start(d, i), p)
    &&& forall|i: int| c <= i < d.nodes.len() ==> !pos_le(#[trigger] start(d, i), p)
}

proof fn lemma_last_start_le_cutoff(d: DocView, p: Position, c: int, k: int)
    requires
        is_cutoff(d, p, c),
        c <= k <= d.nodes.len(),
    ensures
        last_start_le(d, p, k) == (if c == 0 {
            None
        } else {
            Some(c - 1)
        }),
    decreases k,
{
    if k > c {
        lemma_last_start_le_cutoff(d, p, c, k - 1);
    } else if c > 0 {
        assert(pos_le(start(d, c - 1), p));
    }
}

proof fn lemma_walk_up_in_range(d: DocView, i: int, p: Position)
    ensures
        walk_up(d, i, p) matches Some(m) ==> 0 <= m < d.nodes.len(),
    decreases i,
{
    if 0 <= i < d.nodes.len() && !pos_lt(p, span(d, i).end) {
        if let Some(q) = parent(d, i) {
            if 0 <= q < i {
                lemma_walk_up_in_range(d, q, p);
            }
        }
    }
}

proof fn lemma_capture_up_in_range(d: DocView, i: int, k: NodeKind)
    ensures
        capture_up(d, i, k) matches Some(m) ==> 0 <= m < d.nodes.len(),
    decreases i,
{
    if 0 <= i < d.nodes.len() && kind(d, i) != k {
        if let Some(q) = parent(d, i) {
            if 0 <= q < i {
                lemma_capture_up_in_range(d, q, k);
            }
        }
    }
}

/// Whatever the enclosing-kind query returns names a node of the document.
pub proof fn lemma_capture_in_range(d: DocView, p: Position, k: NodeKind)
    ensures
        capture_spec(d, p, k) matches Some(m) ==> 0 <= m < d.nodes.len(),
{
    if let Some(m) = most_specific_spec(d, p) {
        lemma_capture_up_in_range(d, m, k);
    }
}

/// The number of nodes whose start is at or before `p`, by binary search.
fn cutoff(doc: &Document, p: Position) -> (c: usize)
    ensures
        is_cutoff(doc@, p, c as int),
        prec(doc@, p) == (if c == 0 {
            None
        } else {
            Some(c as int - 1)
        }),
{
    proof {
        use_type_invariant(doc);
    }
    let ghost d = doc@;
    let nodes = doc.nodes();
    let mut lo: usize = 0;
    let mut hi: usize = nodes.len();
    while lo < hi
        invariant
            d == doc@,
            nodes@ == d.nodes,
            wf(d),
            0 <= lo <= hi <= d.nodes.len(),
            forall|i: int| 0 <= i < lo ==> pos_le(#[trigger] start(d, i), p),
            forall|i: int| hi <= i < d.nodes.len() ==> !pos_le(#[trigger] start(d, i), p),
        decreases hi - lo,
    {
        let mid = lo + (hi - lo) / 2;
        if position_le(nodes[mid].span.start, p) {
            proof {
                assert forall|i: int| 0 <= i <= mid implies pos_le(#[trigger] start(d, i), p) by {
                    lemma_sorted(d, i, mid as int);
                }
            }
            lo = mid + 1;
        } else {
            proof {
                assert forall|i: int| mid <= i < d.nodes.len() implies !pos_le(
                    #[trigger] start(d, i),
                    p,
                ) by {
                    lemma_sorted(d, mid as int, i);
                }
            }
            hi = mid;
        }
    }
    proof {
        lemma_last_start_le_cutoff(d, p, lo as int, d.nodes.len() as int);
    }
    lo
}

/// The narrowest node whose span contains `p`, or none when `p` falls between tokens
/// or past the end.
pub fn leaf_at(doc: &Document, p: Position) -> (r: Option<usize>)
    ensures
        as_index(r) == leaf_spec(doc@, p),
        r matches Some(i) ==> i < doc@.nodes.len(),
{
    let c = cutoff(doc, p);
    if c == 0 {
        None
    } else if span_covers(doc.nodes()[c - 1].span, p) {
        Some(c - 1)
    } else {
        None
    }
}

fn walk_up_from(doc: &Document, i: usize, p: Position) -> (r: Option<usize>)
    requires
        i < doc@.nodes.len(),
    ensures
        as_index(r) == walk_up(doc@, i as int, p),
{
    proof {
        use_type_invariant(doc);
    }
    let ghost d = doc@;
    let nodes = doc.nodes();
    let mut cur = i;
    loop
        invariant
            d == doc@,
            nodes@ == d.nodes,
            wf(d),
            cur < d.nodes.len(),
            walk_up(d, cur as int, p) == walk_up(d, i as int, p),
        decreases cur,
    {
        let n = nodes[cur];
        if !position_le(n.span.end, p) {
            return Some(cur);
        }
        assert(fault_of(d, cur as int) is None);
        match n.parent {
            Some(q) => {
                cur = q;
            },
            None => {
                return None;
            },
        }
    }
}

/// The deepest node whose span contains `p`: from the rightmost node starting at or
/// before `p`, up through its parents while they end at or before `p`.
pub fn most_specific_at(doc: &Document, p: Position) -> (r: Option<usize>)
    ensures
        most_specific_spec(doc@, p) matches Some(i) ==> 0 <= i < doc@.nodes.len(),
        as_index(r) == most_specific_spec(doc@, p),
{
    let c = cutoff(doc, p);
    proof {
        lemma_walk_up_in_range(doc@, c - 1, p);
    }
    if c == 0 {
        None
    } else {
        walk_up_from(doc, c - 1, p)
    }
}

/// The deepest node of kind `k` enclosing the deepest node whose span contains `p`.
pub fn capture_at(doc: &Document, p: Position, k: NodeKind) -> (r: Option<usize>)
    ensures
        as_index(r) == capture_spec(doc@, p, k),
{
    proof {
        use_type_invariant(doc);
    }
    let ghost d = doc@;
    let m = match most_specific_at(doc, p) {
        Some(m) => m,
        None => {
            return None;
        },
    };
    let nodes = doc.nodes();
    let mut cur = m;
    loop
        invariant
            d == doc@,
            nodes@ == d.nodes,
            wf(d),
            cur < d.nodes.len(),
            capture_up(d, cur as int, k) == capture_spec(d, p, k),
        decreases cur,
    {
        let n = nodes[cur];
        if n.kind == k {
            return Some(cur);
        }
        assert(fault_of(d, cur as int) is None);
        match n.parent {
            Some(q) => {
                cur = q;
            },
            None => {
                return None;
            },
        }
    }
}

/// The index range `[a, b)` of the nodes that cover `p` in one contiguous run ending
/// at the rightmost node starting at or before `p`; empty when that node does not
/// cover `p`.
pub fn subtree_at(doc: &Document, p: Position) -> (r: (usize, usize))
    ensures
        r.0 <= r.1,
        is_cutoff(doc@, p, r.1 as int),
        forall|i: int| r.0 <= i < r.1 ==> covers(#[trigger] span(doc@, i), p),
        r.0 == 0 || !covers(span(doc@, r.0 - 1), p),
{
    let c = cutoff(doc, p);
    let nodes = doc.nodes();
    let mut a = c;
    while a > 0 && span_covers(nodes[a - 1].span, p)
        invariant
            nodes@ == doc@.nodes,
            is_cutoff(doc@, p, c as int),
            a <= c,
            forall|i: int| a <= i < c ==> covers(#[trigger] span(doc@, i), p),
        decreases a,
    {
        a = a - 1;
    }
    (a, c)
}

/// `a` is `x` or one of its ancestors.
pub open spec fn is_ancestor_or_self(d: DocView, a: int, x: int) -> bool
    decreases x,
{
    if a == x {
        true
    } else if !(0 <= x < d.nodes.len()) {
        false
    } else {
        match parent(d, x) {
            Some(q) => if 0 <= q < x {
                is_ancestor_or_self(d, a, q)
            } else {
                false
            },
            None => false,
        }
    }
}

/// Two nodes either nest or the earlier one ends before the later one starts.
pub open spec fn nested(d: DocView) -> bool {
    forall|i: int, j: int|
        0 <= i < j < d.nodes.len() ==> is_ancestor_or_self(d, i, j) || pos_le(
            #[trigger] span(d, i).end,
            #[trigger] start(d, j),
        )
}

/// No node names `l` as its parent.
pub open spec fn is_leaf(d: DocView, l: int) -> bool {
    forall|j: int| 0 <= j < d.nodes.len() ==> #[trigger] parent(d, j) != Some(l)
}

proof fn lemma_last_start_le(d: DocView, p: Position, k: int)
    requires
        0 <= k <= d.nodes.len(),
    ensures
        last_start_le(d, p, k) matches Some(i) ==> {
            &&& 0 <= i < k
            &&& pos_le(start(d, i), p)
            &&& forall|j: int| i < j < k ==> !pos_le(#[trigger] start(d, j), p)
        },
        last_start_le(d, p, k) is None ==> forall|j: int|
            0 <= j < k ==> !pos_le(#[trigger] start(d, j), p),
    decreases k,
{
    if k > 0 {
        lemma_last_start_le(d, p, k - 1);
    }
}

proof fn lemma_ancestor_contains(d: DocView, a: int, x: int)
    requires
        wf(d),
        0 <= x < d.nodes.len(),
        is_ancestor_or_self(d, a, x),
    ensures
        0 <= a <= x,
        contains_span(span(d, a), span(d, x)),
    decreases x,
{
    if a != x {
        let q = parent(d, x)->0;
        assert(fault_of(d, x) is None);
        lemma_ancestor_contains(d, a, q);
    }
}

proof fn lemma_ancestor_has_child(d: DocView, a: int, x: int)
    requires
        is_ancestor_or_self(d, a, x),
        a != x,
    ensures
        exists|j: int| 0 <= j < d.nodes.len() && #[trigger] parent(d, j) == Some(a),
    decreases x,
{
    let q = parent(d, x)->0;
    if q == a {
        assert(parent(d, x) == Some(a));
    } else {
        lemma_ancestor_has_child(d, a, q);
    }
}

proof fn lemma_walk_up(d: DocView, x: int, p: Position, a: int)
    requires
        wf(d),
        0 <= x < d.nodes.len(),
    ensures
        walk_up(d, x, p) matches Some(m) ==> is_ancestor_or_self(d, m, x) && pos_lt(
            p,
            span(d, m).end,
        ),
        is_ancestor_or_self(d, a, x) && pos_lt(p, span(d, a).end) ==> (walk_up(d, x, p) matches Some(
            m,
        ) && is_ancestor_or_self(d, a, m)),
    decreases x,
{
    if !pos_lt(p, span(d, x).end) {
        if let Some(q) = parent(d, x) {
            lemma_walk_up(d, q, p, a);
        }
    }
}

/// A covering node starts at or before the starting node and nests around it.
proof fn lemma_cover_encloses_prec(d: DocView, p: Position, k: int)
    requires
        wf(d),
        nested(d),
        0 <= k < d.nodes.len(),
        covers(span(d, k), p),
    ensures
        prec(d, p) matches Some(i) && is_ancestor_or_self(d, k, i),
{
    lemma_last_start_le(d, p, d.nodes.len() as int);
    assert(pos_le(start(d, k), p));
    let i = prec(d, p)->0;
    if k < i {
        assert(is_ancestor_or_self(d, k, i) || pos_le(span(d, k).end, start(d, i)));
    }
}

/// What the narrowest-node query returns covers `p`, and every node covering `p`
/// encloses it; a node without children that covers `p` is always the one returned,
/// so at most one such node covers any position.
pub proof fn lemma_leaf_at_narrowest(d: DocView, p: Position)
    requires
        wf(d),
        nested(d),
    ensures
        leaf_spec(d, p) matches Some(i) ==> {
            &&& 0 <= i < d.nodes.len()
            &&& covers(span(d, i), p)
            &&& forall|k: int|
                0 <= k < d.nodes.len() && covers(#[trigger] span(d, k), p)
                    ==> is_ancestor_or_self(d, k, i)
        },
        forall|l: int|
            0 <= l < d.nodes.len() && is_leaf(d, l) && covers(#[trigger] span(d, l), p)
                ==> leaf_spec(d, p) == Some(l),
{
    lemma_last_start_le(d, p, d.nodes.len() as int);
    assert forall|k: int|
        0 <= k < d.nodes.len() && covers(#[trigger] span(d, k), p) implies prec(d, p) matches Some(
        i,
    ) && is_ancestor_or_self(d, k, i) by {
        lemma_cover_encloses_prec(d, p, k);
    }
    assert forall|l: int|
        0 <= l < d.nodes.len() && is_leaf(d, l) && covers(#[trigger] span(d, l), p) implies leaf_spec(
        d,
        p,
    ) == Some(l) by {
        lemma_cover_encloses_prec(d, p, l);
        let i = prec(d, p)->0;
        if i != l {
            lemma_ancestor_has_child(d, l, i);
        }
    }
}

/// The deepest-node query returns the narrowest-node answer whenever there is one;
/// what it returns covers `p` and lies inside every node covering `p`, so its span is
/// the smallest; it returns none only where no node covers `p`.
pub proof fn lemma_most_specific_minimal(d: DocView, p: Position)
    requires
        wf(d),
        nested(d),
    ensures
        leaf_spec(d, p) matches Some(i) ==> (most_specific_spec(d, p) matches Some(m)
            && m == i && is_ancestor_or_self(d, m, i)),
        most_specific_spec(d, p) matches Some(m) ==> {
            &&& 0 <= m < d.nodes.len()
            &&& covers(span(d, m), p)
            &&& forall|k: int|
                0 <= k < d.nodes.len() && covers(#[trigger] span(d, k), p) ==> {
                    &&& is_ancestor_or_self(d, k, m)
                    &&& contains_span(span(d, k), span(d, m))
                }
        },
        most_specific_spec(d, p) is None ==> forall|k: int|
            0 <= k < d.nodes.len() ==> !covers(#[trigger] span(d, k), p),
{
    lemma_last_start_le(d, p, d.nodes.len() as int);
    if let Some(i) = prec(d, p) {
        lemma_walk_up(d, i, p, i);
        lemma_walk_up_in_range(d, i, p);
        if let Some(m) = walk_up(d, i, p) {
            lemma_ancestor_contains(d, m, i);
            assert(covers(span(d, m), p));
        }
    }
    assert forall|k: int| 0 <= k < d.nodes.len() && covers(#[trigger] span(d, k), p) implies {
        &&& most_specific_spec(d, p) matches Some(m)
        &&& is_ancestor_or_self(d, k, m)
        &&& contains_span(span(d, k), span(d, m))
    } by {
        lemma_cover_encloses_prec(d, p, k);
        let i = prec(d, p)->0;
        lemma_walk_up(d, i, p, k);
        lemma_walk_up_in_range(d, i, p);
        let m = walk_up(d, i, p)->0;
        lemma_ancestor_contains(d, k, m);
    }
}

} // verus!
