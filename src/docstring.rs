//! Documentation comments for hover cards.
//!
//! The documentation of a declaration is the block of comments at column 0 on the
//! lines just above it: scanning back from the declaration, each comment must sit on
//! the line right above the previous one, and end-of-line tokens are passed over; any
//! other node, or a gap of a line, ends the block.

use vstd::prelude::*;
use vstd::string::StringSliceAdditionalSpecFns;
use crate::span_index::{leaf_at, leaf_spec};
use crate::symbols::{category, category_of, same_text, text_of, Category};
use crate::tree::{push_bytes, kind, parent, span, start, text, DocView, Document, NodeKind, Position, Span};

verus! {

/// Node `j` is a comment at column 0 of line `l`.
pub open spec fn is_doc_comment(d: DocView, j: int, l: int) -> bool {
    kind(d, j) == NodeKind::Comment && start(d, j).character == 0 && start(d, j).line == l
}

/// Scanning back from node `j`, which should be on line `l`, the index where the
/// comment block begins.
pub open spec fn block_start(d: DocView, j: int, l: int) -> int
    decreases j + 1,
{
    if j < 0 {
        0
    } else if kind(d, j) == NodeKind::Eol {
        block_start(d, j - 1, l)
    } else if is_doc_comment(d, j, l) {
        block_start(d, j - 1, l - 1)
    } else {
        j + 1
    }
}

/// A comment line without its leading `#` and the single space after it.
pub open spec fn strip_marker(s: Seq<u8>) -> Seq<u8> {
    let s1 = if s.len() > 0 && s[0] == 35u8 {
        s.subrange(1, s.len() as int)
    } else {
        s
    };
    if s1.len() > 0 && s1[0] == 32u8 {
        s1.subrange(1, s1.len() as int)
    } else {
        s1
    }
}

/// The stripped texts of the comments among nodes `a..b`, in order.
pub open spec fn comment_lines(d: DocView, a: int, b: int) -> Seq<Seq<u8>>
    decreases b - a,
{
    if b <= a {
        Seq::empty()
    } else if kind(d, b - 1) == NodeKind::Comment {
        comment_lines(d, a, b - 1).push(strip_marker(text(d, b - 1)))
    } else {
        comment_lines(d, a, b - 1)
    }
}

/// The documentation lines of node `t`, top to bottom.
pub open spec fn doc_lines(d: DocView, t: int) -> Seq<Seq<u8>> {
    comment_lines(d, block_start(d, t - 1, start(d, t).line - 1), t)
}

/// What a hover card shows: documentation lines, the declaration's own text, and its
/// span.
pub struct Docstring {
    pub lines: Vec<Vec<u8>>,
    pub code: Vec<u8>,
    pub span: Span,
}

pub struct DocstringView {
    pub lines: Seq<Seq<u8>>,
    pub code: Seq<u8>,
    pub span: Span,
}

impl View for Docstring {
    type V = DocstringView;

    open spec fn view(&self) -> DocstringView {
        DocstringView {
            lines: self.lines@.map_values(|l: Vec<u8>| l@),
            code: self.code@,
            span: self.span,
        }
    }
}

pub open spec fn docstring_spec(d: DocView, t: int) -> DocstringView {
    DocstringView { lines: doc_lines(d, t), code: text(d, t), span: span(d, t) }
}

fn stripped_text(doc: &Document, j: usize) -> (r: Vec<u8>)
    requires
        j < doc@.nodes.len(),
    ensures
        r@ == strip_marker(text(doc@, j as int)),
{
    proof {
        use_type_invariant(doc);
        assert(crate::tree::fault_of(doc@, j as int) is None);
    }
    let ghost s = text(doc@, j as int);
    let n = doc.nodes()[j];
    let src = doc.source();
    let mut a = n.start_byte;
    if a < n.end_byte && src[a] == 35u8 {
        a = a + 1;
    }
    let ghost s1 = src@.subrange(a as int, n.end_byte as int);
    assert(s1 =~= (if s.len() > 0 && s[0] == 35u8 {
        s.subrange(1, s.len() as int)
    } else {
        s
    }));
    if a < n.end_byte && src[a] == 32u8 {
        a = a + 1;
    }
    assert(src@.subrange(a as int, n.end_byte as int) =~= strip_marker(s));
    let mut r: Vec<u8> = Vec::new();
    let mut k = a;
    while k < n.end_byte
        invariant
            src@ == doc@.source,
            a <= k <= n.end_byte <= src@.len(),
            r@ == src@.subrange(a as int, k as int),
        decreases n.end_byte - k,
    {
        r.push(src[k]);
        k = k + 1;
        assert(r@ =~= src@.subrange(a as int, k as int));
    }
    r
}

/// The documentation of node `t`, with its text and span.
pub fn docstring_for(doc: &Document, t: usize) -> (r: Docstring)
    requires
        t < doc@.nodes.len(),
    ensures
        r@ == docstring_spec(doc@, t as int),
{
    let ghost d = doc@;
    let nodes = doc.nodes();
    let target_line = nodes[t].span.start.line;
    let mut l: i64 = target_line as i64 - 1;
    let mut j = t;
    let mut stop = false;
    while j > 0 && !stop
        invariant
            d == doc@,
            nodes@ == d.nodes,
            t < d.nodes.len(),
            j <= t,
            -1 - t <= l <= target_line - 1,
            block_start(d, j - 1, l as int) == block_start(d, t - 1, target_line - 1),
            stop ==> block_start(d, j - 1, l as int) == j,
        decreases j, if stop { 0int } else { 1int },
    {
        let node = nodes[j - 1];
        if node.kind == NodeKind::Eol {
            j = j - 1;
        } else if node.kind == NodeKind::Comment && node.span.start.character == 0
            && node.span.start.line as i64 == l {
            j = j - 1;
            l = l - 1;
        } else {
            stop = true;
        }
    }
    let mut lines: Vec<Vec<u8>> = Vec::new();
    let ghost a = j as int;
    let mut k = j;
    while k < t
        invariant
            d == doc@,
            nodes@ == d.nodes,
            t < d.nodes.len(),
            a <= k <= t,
            lines@.map_values(|l: Vec<u8>| l@) == comment_lines(d, a, k as int),
        decreases t - k,
    {
        if nodes[k].kind == NodeKind::Comment {
            let line = stripped_text(doc, k);
            lines.push(line);
        }
        proof {
            assert(lines@.map_values(|l: Vec<u8>| l@) =~= comment_lines(d, a, k + 1));
        }
        k = k + 1;
    }
    Docstring { lines, code: text_of(doc, t), span: nodes[t].span }
}

/// The type-definition names among the first `k` nodes named like node `i`.
pub open spec fn def_nodes(d: DocView, i: int, k: int) -> Seq<int>
    decreases k,
{
    if k <= 0 {
        Seq::empty()
    } else if category(d, k - 1) == Some(Category::TypeDef) && text(d, k - 1) == text(d, i) {
        def_nodes(d, i, k - 1).push(k - 1)
    } else {
        def_nodes(d, i, k - 1)
    }
}

/// The declaration that a hover at `p` shows: for a name under the cursor, the
/// declaration it names; for a type reference, the one type definition of that name,
/// and none when there are several or none.
pub open spec fn hover_target(d: DocView, p: Position) -> Option<int> {
    match leaf_spec(d, p) {
        Some(l) => if kind(d, l) == NodeKind::Name || kind(d, l) == NodeKind::InterfaceName {
            match parent(d, l) {
                Some(q) => if kind(d, q) == NodeKind::Typeref {
                    let defs = def_nodes(d, l, d.nodes.len() as int);
                    if defs.len() == 1 {
                        parent(d, defs[0])
                    } else {
                        None
                    }
                } else {
                    Some(q)
                },
                None => None,
            }
        } else {
            None
        },
        None => None,
    }
}

proof fn lemma_def_nodes_in_range(d: DocView, i: int, k: int)
    requires
        0 <= k,
    ensures
        forall|x: int|
            0 <= x < def_nodes(d, i, k).len() ==> 0 <= #[trigger] def_nodes(d, i, k)[x] < k,
    decreases k,
{
    if k > 0 {
        lemma_def_nodes_in_range(d, i, k - 1);
        let prev = def_nodes(d, i, k - 1);
        assert forall|x: int| 0 <= x < def_nodes(d, i, k).len() implies 0 <= #[trigger] def_nodes(
            d,
            i,
            k,
        )[x] < k by {
            if x < prev.len() {
                assert(def_nodes(d, i, k)[x] == prev[x]);
            }
        }
    }
}

/// The only type definition named like node `l`, if there is exactly one.
fn unique_definition(doc: &Document, l: usize) -> (r: Option<usize>)
    requires
        l < doc@.nodes.len(),
    ensures
        ({
            let defs = def_nodes(doc@, l as int, doc@.nodes.len() as int);
            if defs.len() == 1 {
                r == Some(defs[0] as usize) && 0 <= defs[0] < doc@.nodes.len()
            } else {
                r is None
            }
        }),
{
    let ghost d = doc@;
    let n = doc.len();
    let mut found: Option<usize> = None;
    let mut count: usize = 0;
    let mut j: usize = 0;
    while j < n
        invariant
            d == doc@,
            n == d.nodes.len(),
            l < n,
            j <= n,
            count == def_nodes(d, l as int, j as int).len(),
            count <= j,
            count >= 1 ==> found == Some(def_nodes(d, l as int, j as int)[0] as usize),
        decreases n - j,
    {
        let is_def = match category_of(doc, j) {
            Some(Category::TypeDef) => same_text(doc, j, l),
            _ => false,
        };
        if is_def {
            if count == 0 {
                found = Some(j);
            }
            count = count + 1;
        }
        proof {
            if is_def && count > 1 {
                assert(def_nodes(d, l as int, j + 1)[0] == def_nodes(d, l as int, j as int)[0]);
            }
        }
        j = j + 1;
    }
    proof {
        lemma_def_nodes_in_range(d, l as int, n as int);
    }
    if count == 1 {
        found
    } else {
        None
    }
}

/// The hover card at `p`: the documentation, text and span of the declaration that
/// the name under the cursor declares or, for a type reference, of its one type
/// definition.
pub fn hover(doc: &Document, p: Position) -> (r: Option<Docstring>)
    ensures
        match hover_target(doc@, p) {
            Some(t) => r matches Some(h) && h@ == docstring_spec(doc@, t),
            None => r is None,
        },
{
    proof {
        use_type_invariant(doc);
    }
    let ghost d = doc@;
    let nodes = doc.nodes();
    // The node count fits in a usize: node indices below convert without loss.
    proof {
        assert(nodes@.len() == nodes.len());
    }
    let l = match leaf_at(doc, p) {
        Some(l) => l,
        None => {
            return None;
        },
    };
    let leaf = nodes[l];
    match leaf.kind {
        NodeKind::Name | NodeKind::InterfaceName => {},
        _ => {
            return None;
        },
    }
    assert(crate::tree::fault_of(d, l as int) is None);
    let q = match leaf.parent {
        Some(q) => q,
        None => {
            return None;
        },
    };
    if nodes[q].kind == NodeKind::Typeref {
        match unique_definition(doc, l) {
            Some(def) => {
                assert(crate::tree::fault_of(d, def as int) is None);
                match nodes[def].parent {
                    Some(t) => Some(docstring_for(doc, t)),
                    None => None,
                }
            },
            None => None,
        }
    } else {
        Some(docstring_for(doc, q))
    }
}

/// Each line followed by a newline.
pub open spec fn joined_lines(lines: Seq<Seq<u8>>) -> Seq<u8>
    decreases lines.len(),
{
    if lines.len() == 0 {
        Seq::empty()
    } else {
        joined_lines(lines.drop_last()) + lines.last() + "\n".spec_bytes()
    }
}

/// A hover card in Markdown: the declaration in a fenced code block, then, if it has
/// any, a rule and the documentation lines.
pub open spec fn markdown(card: DocstringView) -> Seq<u8> {
    let code = "```varlink\n".spec_bytes() + card.code + "\n```".spec_bytes();
    if card.lines.len() == 0 {
        code
    } else {
        code + "\n\n---\n".spec_bytes() + joined_lines(card.lines)
    }
}

/// The hover card rendered as Markdown.
pub fn hover_markdown(card: &Docstring) -> (r: Vec<u8>)
    ensures
        r@ == markdown(card@),
{
    let mut out: Vec<u8> = Vec::new();
    push_bytes(&mut out, "```varlink\n".as_bytes());
    push_bytes(&mut out, card.code.as_slice());
    push_bytes(&mut out, "\n```".as_bytes());
    if card.lines.len() > 0 {
        push_bytes(&mut out, "\n\n---\n".as_bytes());
        let ghost lines = card@.lines;
        let ghost head = out@;
        let mut k: usize = 0;
        while k < card.lines.len()
            invariant
                lines == card@.lines,
                k <= lines.len(),
                out@ == head + joined_lines(lines.subrange(0, k as int)),
            decreases lines.len() - k,
        {
            push_bytes(&mut out, card.lines[k].as_slice());
            push_bytes(&mut out, "\n".as_bytes());
            proof {
                assert(lines.subrange(0, k + 1).drop_last() =~= lines.subrange(0, k as int));
                assert(out@ =~= head + joined_lines(lines.subrange(0, k + 1)));
            }
            k = k + 1;
        }
        assert(lines.subrange(0, k as int) =~= lines);
    }
    out
}

proof fn lemma_block_start_run(d: DocView, t: int, m: int, k: int)
    requires
        0 <= m <= t,
        0 <= k <= m,
        forall|x: int|
            0 <= x < m ==> #[trigger] is_doc_comment(d, t - m + x, start(d, t).line - m + x),
        t - m == 0 || (kind(d, t - m - 1) != NodeKind::Eol && !is_doc_comment(
            d,
            t - m - 1,
            start(d, t).line - m - 1,
        )),
    ensures
        block_start(d, t - m - 1 + k, start(d, t).line - m - 1 + k) == t - m,
    decreases k,
{
    if k > 0 {
        lemma_block_start_run(d, t, m, k - 1);
        assert(is_doc_comment(d, t - m + (k - 1), start(d, t).line - m + (k - 1)));
    }
}

proof fn lemma_comment_run(d: DocView, t: int, m: int, k: int)
    requires
        0 <= m <= t,
        0 <= k <= m,
        forall|x: int|
            0 <= x < m ==> #[trigger] is_doc_comment(d, t - m + x, start(d, t).line - m + x),
    ensures
        comment_lines(d, t - m, t - m + k) =~= Seq::new(
            k as nat,
            |x: int| strip_marker(text(d, t - m + x)),
        ),
    decreases k,
{
    if k > 0 {
        lemma_comment_run(d, t, m, k - 1);
        assert(is_doc_comment(d, t - m + (k - 1), start(d, t).line - m + (k - 1)));
    }
}

/// A block of M comments at column 0 on the M lines just above a declaration, and
/// right before it in the node sequence, documents it with exactly those M lines, top
/// to bottom. With M = 0 this says that a declaration whose preceding node is neither
/// an end of line nor a comment on the line just above it (a blank line, or code,
/// in between) has no documentation.
pub proof fn lemma_docstring_block(d: DocView, t: int, m: int)
    requires
        0 <= m <= t < d.nodes.len(),
        forall|x: int|
            0 <= x < m ==> #[trigger] is_doc_comment(d, t - m + x, start(d, t).line - m + x),
        t - m == 0 || (kind(d, t - m - 1) != NodeKind::Eol && !is_doc_comment(
            d,
            t - m - 1,
            start(d, t).line - m - 1,
        )),
    ensures
        doc_lines(d, t) == Seq::new(m as nat, |x: int| strip_marker(text(d, t - m + x))),
{
    lemma_block_start_run(d, t, m, m);
    lemma_comment_run(d, t, m, m);
}

} // verus!
