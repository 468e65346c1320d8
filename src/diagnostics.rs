//! Consistency findings over a document: parse errors, duplicate declarations,
//! unknown type references, and a missing trailing newline.
//!
//! A type reference to a name that is defined more than once counts as resolved: the
//! duplicate definitions are reported, and the reference gets no diagnostic of its own.

use vstd::prelude::*;
use vstd::string::StringSliceAdditionalSpecFns;
use crate::symbols::{
    category, category_of, defs_named, is_declaration, key_count, lemma_key_count_others,
    lemma_same_key_spans, lemma_same_text_defs, other_spans, same_key, same_text, spans_with_key,
    text_of, Category,
};
use crate::tree::{push_bytes, kind, parent, span, text, DocView, Document, NodeKind, Position, Span};

verus! {

/// What a diagnostic reports.
#[derive(Clone, Copy, Debug, PartialEq, Eq, Structural)]
pub enum DiagnosticKind {
    /// A name declared more than once in one scope of this category.
    Duplicate(Category),
    /// A type reference to a name that no type definition declares.
    UnknownType,
    /// The document does not end with a newline at the top level.
    MissingTrailingNewline,
    /// A syntax error reported by the parser.
    Parse,
}

/// An error finding: its kind and span, the name or parser message it concerns, and
/// the spans of related occurrences (the other declarations of a duplicated name).
pub struct Diagnostic {
    pub kind: DiagnosticKind,
    pub span: Span,
    pub text: Vec<u8>,
    pub related: Vec<Span>,
}

pub struct DiagnosticView {
    pub kind: DiagnosticKind,
    pub span: Span,
    pub text: Seq<u8>,
    pub related: Seq<Span>,
}

impl View for Diagnostic {
    type V = DiagnosticView;

    open spec fn view(&self) -> DiagnosticView {
        DiagnosticView {
            kind: self.kind,
            span: self.span,
            text: self.text@,
            related: self.related@,
        }
    }
}

/// How a message names a category of declaration.
pub open spec fn category_words(c: Category) -> Seq<u8> {
    match c {
        Category::TypeDef => "type definition".spec_bytes(),
        Category::Error => "error".spec_bytes(),
        Category::Method => "method".spec_bytes(),
        Category::Field(_) => "struct field".spec_bytes(),
        Category::Member(_) => "enum member".spec_bytes(),
        Category::TypeRef => "type reference".spec_bytes(),
    }
}

/// The human-readable message of a diagnostic.
pub open spec fn message_of(d: DiagnosticView) -> Seq<u8> {
    match d.kind {
        DiagnosticKind::Duplicate(c) => category_words(c) + " `".spec_bytes() + d.text
            + "` declared multiple times".spec_bytes(),
        DiagnosticKind::UnknownType => "unknown type `".spec_bytes() + d.text + "`".spec_bytes(),
        DiagnosticKind::MissingTrailingNewline => "missing trailing newline".spec_bytes(),
        DiagnosticKind::Parse => d.text,
    }
}

impl Diagnostic {
    /// The human-readable message.
    pub fn message(&self) -> (r: Vec<u8>)
        ensures
            r@ == message_of(self@),
    {
        let mut out: Vec<u8> = Vec::new();
        match self.kind {
            DiagnosticKind::Duplicate(c) => {
                let words = match c {
                    Category::TypeDef => "type definition",
                    Category::Error => "error",
                    Category::Method => "method",
                    Category::Field(_) => "struct field",
                    Category::Member(_) => "enum member",
                    Category::TypeRef => "type reference",
                };
                push_bytes(&mut out, words.as_bytes());
                push_bytes(&mut out, " `".as_bytes());
                push_bytes(&mut out, self.text.as_slice());
                push_bytes(&mut out, "` declared multiple times".as_bytes());
            },
            DiagnosticKind::UnknownType => {
                push_bytes(&mut out, "unknown type `".as_bytes());
                push_bytes(&mut out, self.text.as_slice());
                push_bytes(&mut out, "`".as_bytes());
            },
            DiagnosticKind::MissingTrailingNewline => {
                push_bytes(&mut out, "missing trailing newline".as_bytes());
            },
            DiagnosticKind::Parse => {
                push_bytes(&mut out, self.text.as_slice());
            },
        }
        out
    }
}

/// A syntax error as the parser reports it.
pub struct ParseError {
    pub span: Span,
    pub message: Vec<u8>,
}

/// The diagnostic of node `i`, if any.
pub open spec fn diagnostics_at(d: DocView, i: int) -> Seq<DiagnosticView> {
    match category(d, i) {
        Some(c) => if is_declaration(c) && key_count(d, i) > 1 {
            seq![
                DiagnosticView {
                    kind: DiagnosticKind::Duplicate(c),
                    span: span(d, i),
                    text: text(d, i),
                    related: other_spans(d, i, d.nodes.len() as int),
                },
            ]
        } else if c is TypeRef && defs_named(d, i, d.nodes.len() as int).len() == 0 {
            seq![
                DiagnosticView {
                    kind: DiagnosticKind::UnknownType,
                    span: span(d, i),
                    text: text(d, i),
                    related: Seq::empty(),
                },
            ]
        } else {
            Seq::empty()
        },
        None => Seq::empty(),
    }
}

/// The diagnostics of the first `k` nodes, in document order.
pub open spec fn occurrence_diagnostics(d: DocView, k: int) -> Seq<DiagnosticView>
    decreases k,
{
    if k <= 0 {
        Seq::empty()
    } else {
        occurrence_diagnostics(d, k - 1) + diagnostics_at(d, k - 1)
    }
}

/// The first `k` parse errors, each span reported once, at its first report.
pub open spec fn parse_diagnostics(errs: Seq<ParseError>, k: int) -> Seq<DiagnosticView>
    decreases k,
{
    if k <= 0 {
        Seq::empty()
    } else if exists|j: int| 0 <= j < k - 1 && #[trigger] errs[j].span == errs[k - 1].span {
        parse_diagnostics(errs, k - 1)
    } else {
        parse_diagnostics(errs, k - 1).push(
            DiagnosticView {
                kind: DiagnosticKind::Parse,
                span: errs[k - 1].span,
                text: errs[k - 1].message@,
                related: Seq::empty(),
            },
        )
    }
}

pub open spec fn newline_count(s: Seq<u8>) -> nat
    decreases s.len(),
{
    if s.len() == 0 {
        0
    } else {
        newline_count(s.drop_last()) + if s.last() == 10u8 {
            1nat
        } else {
            0nat
        }
    }
}

/// The position just past the last line of the source, the line saturating at the
/// largest `u32`.
pub open spec fn end_of_document(s: Seq<u8>) -> Position {
    Position {
        line: if newline_count(s) + 1 > u32::MAX {
            u32::MAX
        } else {
            (newline_count(s) + 1) as u32
        },
        character: 0,
    }
}

/// The last node is an end-of-line token directly below the root.
pub open spec fn ends_with_newline(d: DocView) -> bool {
    let l = d.nodes.len() - 1;
    kind(d, l) == NodeKind::Eol && parent(d, l) == Some(0int)
}

pub open spec fn trailing_diagnostics(d: DocView) -> Seq<DiagnosticView> {
    if d.nodes.len() > 0 && !ends_with_newline(d) {
        seq![
            DiagnosticView {
                kind: DiagnosticKind::MissingTrailingNewline,
                span: Span { start: end_of_document(d.source), end: end_of_document(d.source) },
                text: Seq::empty(),
                related: Seq::empty(),
            },
        ]
    } else {
        Seq::empty()
    }
}

/// Every diagnostic of a document: parse errors, then the findings on identifier
/// occurrences in document order, then the trailing-newline check.
pub open spec fn all_diagnostics(d: DocView, errs: Seq<ParseError>) -> Seq<DiagnosticView> {
    parse_diagnostics(errs, errs.len() as int) + occurrence_diagnostics(d, d.nodes.len() as int)
        + trailing_diagnostics(d)
}

fn copy_bytes(v: &Vec<u8>) -> (r: Vec<u8>)
    ensures
        r@ == v@,
{
    let mut r: Vec<u8> = Vec::new();
    let mut k: usize = 0;
    while k < v.len()
        invariant
            k <= v@.len(),
            r@ == v@.subrange(0, k as int),
        decreases v@.len() - k,
    {
        r.push(v[k]);
        k = k + 1;
        assert(r@ =~= v@.subrange(0, k as int));
    }
    assert(r@ =~= v@);
    r
}

/// Some type definition is named by node `i`'s text.
fn has_definition(doc: &Document, i: usize) -> (r: bool)
    requires
        i < doc@.nodes.len(),
    ensures
        r == (defs_named(doc@, i as int, doc@.nodes.len() as int).len() > 0),
{
    let n = doc.len();
    let mut j: usize = 0;
    while j < n
        invariant
            n == doc@.nodes.len(),
            i < n,
            j <= n,
            defs_named(doc@, i as int, j as int).len() == 0,
        decreases n - j,
    {
        match category_of(doc, j) {
            Some(Category::TypeDef) => {
                if same_text(doc, j, i) {
                    proof {
                        lemma_defs_monotone(doc@, i as int, j as int + 1, n as int);
                    }
                    return true;
                }
            },
            _ => {},
        }
        j = j + 1;
    }
    false
}

proof fn lemma_defs_monotone(d: DocView, i: int, k: int, m: int)
    requires
        0 <= k <= m,
    ensures
        defs_named(d, i, k).len() <= defs_named(d, i, m).len(),
    decreases m,
{
    if m > k {
        lemma_defs_monotone(d, i, k, m - 1);
    }
}

/// The diagnostic of node `i`, if any.
fn diagnostic_at(doc: &Document, i: usize) -> (r: Option<Diagnostic>)
    requires
        i < doc@.nodes.len(),
    ensures
        match r {
            Some(x) => diagnostics_at(doc@, i as int) == seq![x@],
            None => diagnostics_at(doc@, i as int) == Seq::<DiagnosticView>::empty(),
        },
{
    let ghost d = doc@;
    let c = match category_of(doc, i) {
        Some(c) => c,
        None => {
            return None;
        },
    };
    if let Category::TypeRef = c {
        if has_definition(doc, i) {
            None
        } else {
            Some(
                Diagnostic {
                    kind: DiagnosticKind::UnknownType,
                    span: doc.nodes()[i].span,
                    text: text_of(doc, i),
                    related: Vec::new(),
                },
            )
        }
    } else {
        let n = doc.len();
        let mut others: Vec<Span> = Vec::new();
        let mut j: usize = 0;
        while j < n
            invariant
                d == doc@,
                n == d.nodes.len(),
                i < n,
                category(d, i as int) == Some(c),
                j <= n,
                others@ == other_spans(d, i as int, j as int),
            decreases n - j,
        {
            if j != i {
                let same = match category_of(doc, j) {
                    Some(cj) => cj == c && same_text(doc, j, i),
                    None => false,
                };
                if same {
                    others.push(doc.nodes()[j].span);
                }
            }
            j = j + 1;
        }
        proof {
            lemma_key_count_others(d, i as int, n as int);
        }
        if others.len() == 0 {
            None
        } else {
            Some(
                Diagnostic {
                    kind: DiagnosticKind::Duplicate(c),
                    span: doc.nodes()[i].span,
                    text: text_of(doc, i),
                    related: others,
                },
            )
        }
    }
}

/// Every diagnostic of a document: each parse error once per span, a duplicate
/// diagnostic for each occurrence of a name declared more than once in its scope, an
/// unknown-type diagnostic for each reference to a name that no type definition
/// declares, and a missing-trailing-newline diagnostic at the end of the document.
pub fn diagnostics(doc: &Document, parse_errors: &Vec<ParseError>) -> (r: Vec<Diagnostic>)
    ensures
        r@.map_values(|x: Diagnostic| x@) == all_diagnostics(doc@, parse_errors@),
{
    let ghost d = doc@;
    let ghost errs = parse_errors@;
    let mut r: Vec<Diagnostic> = Vec::new();
    let mut k: usize = 0;
    while k < parse_errors.len()
        invariant
            errs == parse_errors@,
            k <= errs.len(),
            r@.map_values(|x: Diagnostic| x@) == parse_diagnostics(errs, k as int),
        decreases errs.len() - k,
    {
        let e = &parse_errors[k];
        let mut seen = false;
        let mut j: usize = 0;
        while j < k
            invariant
                errs == parse_errors@,
                k < errs.len(),
                e == errs[k as int],
                j <= k,
                seen <==> exists|m: int| 0 <= m < j && #[trigger] errs[m].span == e.span,
            decreases k - j,
        {
            if parse_errors[j].span == e.span {
                seen = true;
            }
            j = j + 1;
        }
        if !seen {
            r.push(
                Diagnostic {
                    kind: DiagnosticKind::Parse,
                    span: e.span,
                    text: copy_bytes(&e.message),
                    related: Vec::new(),
                },
            );
        }
        proof {
            assert(r@.map_values(|x: Diagnostic| x@) =~= parse_diagnostics(errs, k + 1));
        }
        k = k + 1;
    }
    let ghost base = r@.map_values(|x: Diagnostic| x@);
    let n = doc.len();
    let mut i: usize = 0;
    while i < n
        invariant
            d == doc@,
            n == d.nodes.len(),
            i <= n,
            base == parse_diagnostics(errs, errs.len() as int),
            r@.map_values(|x: Diagnostic| x@) == base + occurrence_diagnostics(d, i as int),
        decreases n - i,
    {
        let ghost before = r@.map_values(|x: Diagnostic| x@);
        assert(occurrence_diagnostics(d, i + 1) == occurrence_diagnostics(d, i as int)
            + diagnostics_at(d, i as int));
        match diagnostic_at(doc, i) {
            Some(x) => {
                r.push(x);
                proof {
                    assert(r@.map_values(|x: Diagnostic| x@) =~= before.push(x@));
                }
            },
            None => {
                assert(r@.map_values(|x: Diagnostic| x@) == before);
            },
        }
        proof {
            assert(r@.map_values(|x: Diagnostic| x@) =~= base + occurrence_diagnostics(
                d,
                i + 1,
            ));
        }
        i = i + 1;
    }
    if n > 0 {
        let last = doc.nodes()[n - 1];
        let top_level_eol = match last.kind {
            NodeKind::Eol => match last.parent {
                Some(q) => q == 0 && n - 1 > 0,
                None => false,
            },
            _ => false,
        };
        if !top_level_eol {
            let end = end_position(doc.source().as_slice());
            r.push(
                Diagnostic {
                    kind: DiagnosticKind::MissingTrailingNewline,
                    span: Span { start: end, end: end },
                    text: Vec::new(),
                    related: Vec::new(),
                },
            );
        }
    }
    proof {
        assert(r@.map_values(|x: Diagnostic| x@) =~= all_diagnostics(d, errs));
    }
    r
}

/// The position just past the last line of `s`.
pub fn end_position(s: &[u8]) -> (r: Position)
    ensures
        r == end_of_document(s@),
{
    let mut count: usize = 0;
    let mut k: usize = 0;
    while k < s.len()
        invariant
            k <= s@.len(),
            count == newline_count(s@.subrange(0, k as int)),
            count <= k,
        decreases s@.len() - k,
    {
        assert(s@.subrange(0, k as int + 1).drop_last() =~= s@.subrange(0, k as int));
        if s[k] == 10u8 {
            count = count + 1;
        }
        k = k + 1;
    }
    assert(s@.subrange(0, k as int) =~= s@);
    let line: u32 = if count >= 4294967295usize {
        4294967295u32
    } else {
        (count + 1) as u32
    };
    Position { line, character: 0 }
}

/// How many diagnostics of kind `k` concern the name `name`.
pub open spec fn count_of(ds: Seq<DiagnosticView>, k: DiagnosticKind, name: Seq<u8>) -> nat
    decreases ds.len(),
{
    if ds.len() == 0 {
        0
    } else {
        count_of(ds.drop_last(), k, name) + if ds.last().kind == k && ds.last().text == name {
            1nat
        } else {
            0nat
        }
    }
}

proof fn lemma_count_concat(
    a: Seq<DiagnosticView>,
    b: Seq<DiagnosticView>,
    k: DiagnosticKind,
    name: Seq<u8>,
)
    ensures
        count_of(a + b, k, name) == count_of(a, k, name) + count_of(b, k, name),
    decreases b.len(),
{
    if b.len() > 0 {
        assert((a + b).drop_last() =~= a + b.drop_last());
        lemma_count_concat(a, b.drop_last(), k, name);
    } else {
        assert(a + b =~= a);
    }
}

proof fn lemma_count_small(s: Seq<DiagnosticView>, k: DiagnosticKind, name: Seq<u8>)
    requires
        s.len() <= 1,
    ensures
        count_of(s, k, name) == if s.len() == 1 && s[0].kind == k && s[0].text == name {
            1nat
        } else {
            0nat
        },
{
    if s.len() == 1 {
        assert(s.drop_last() =~= Seq::<DiagnosticView>::empty());
        assert(count_of(Seq::<DiagnosticView>::empty(), k, name) == 0);
    }
}

proof fn lemma_parse_kinds(errs: Seq<ParseError>, j: int, k: DiagnosticKind, name: Seq<u8>)
    requires
        k != DiagnosticKind::Parse,
    ensures
        count_of(parse_diagnostics(errs, j), k, name) == 0,
        forall|x: int|
            0 <= x < parse_diagnostics(errs, j).len() ==> (#[trigger] parse_diagnostics(
                errs,
                j,
            )[x]).kind == DiagnosticKind::Parse,
    decreases j,
{
    if j > 0 {
        lemma_parse_kinds(errs, j - 1, k, name);
        let prev = parse_diagnostics(errs, j - 1);
        if !(exists|m: int| 0 <= m < j - 1 && #[trigger] errs[m].span == errs[j - 1].span) {
            let v = DiagnosticView {
                kind: DiagnosticKind::Parse,
                span: errs[j - 1].span,
                text: errs[j - 1].message@,
                related: Seq::empty(),
            };
            assert(prev.push(v).drop_last() =~= prev);
        }
    }
}

/// The duplicate diagnostics for node `i`'s key among the first `k` nodes: one per
/// occurrence when the key occurs more than once, each relating all the others.
proof fn lemma_duplicate_occurrences(d: DocView, i: int, c: Category, k: int)
    requires
        0 <= i < d.nodes.len(),
        0 <= k <= d.nodes.len(),
        category(d, i) == Some(c),
        is_declaration(c),
    ensures
        count_of(occurrence_diagnostics(d, k), DiagnosticKind::Duplicate(c), text(d, i)) == if key_count(d, i) > 1 {
            spans_with_key(d, i, k).len()
        } else {
            0
        },
        forall|x: int|
            0 <= x < occurrence_diagnostics(d, k).len() && (#[trigger] occurrence_diagnostics(
                d,
                k,
            )[x]).kind == DiagnosticKind::Duplicate(c) && occurrence_diagnostics(d, k)[x].text
                == text(d, i) ==> occurrence_diagnostics(d, k)[x].related.len() == key_count(d, i)
                - 1,
    decreases k,
{
    if k > 0 {
        let j = k - 1;
        lemma_duplicate_occurrences(d, i, c, j);
        let prev = occurrence_diagnostics(d, j);
        let here = diagnostics_at(d, j);
        lemma_count_concat(prev, here, DiagnosticKind::Duplicate(c), text(d, i));
        if same_key(d, i, j) {
            lemma_same_key_spans(d, i, j, d.nodes.len() as int);
            lemma_key_count_others(d, j, d.nodes.len() as int);
        }
        lemma_count_small(here, DiagnosticKind::Duplicate(c), text(d, i));
        assert forall|x: int|
            0 <= x < occurrence_diagnostics(d, k).len() && (#[trigger] occurrence_diagnostics(
                d,
                k,
            )[x]).kind == DiagnosticKind::Duplicate(c) && occurrence_diagnostics(d, k)[x].text
                == text(d, i) implies occurrence_diagnostics(d, k)[x].related.len() == key_count(
            d,
            i,
        ) - 1 by {
            if x >= prev.len() {
                assert(same_key(d, i, j));
            } else {
                assert(occurrence_diagnostics(d, k)[x] == prev[x]);
            }
        }
    }
}

/// The unknown-type diagnostics for node `i`'s name among the first `k` nodes: one
/// per reference to it when no type definition declares it.
proof fn lemma_unknown_occurrences(d: DocView, i: int, k: int)
    requires
        0 <= i < d.nodes.len(),
        0 <= k <= d.nodes.len(),
        category(d, i) == Some(Category::TypeRef),
    ensures
        count_of(occurrence_diagnostics(d, k), DiagnosticKind::UnknownType, text(d, i)) == if defs_named(d, i, d.nodes.len() as int).len() == 0 {
            spans_with_key(d, i, k).len()
        } else {
            0
        },
        i < k && defs_named(d, i, d.nodes.len() as int).len() == 0 ==> exists|x: int|
            0 <= x < occurrence_diagnostics(d, k).len() && #[trigger] occurrence_diagnostics(
                d,
                k,
            )[x] == (DiagnosticView {
                kind: DiagnosticKind::UnknownType,
                span: span(d, i),
                text: text(d, i),
                related: Seq::empty(),
            }),
    decreases k,
{
    if k > 0 {
        let j = k - 1;
        lemma_unknown_occurrences(d, i, j);
        let prev = occurrence_diagnostics(d, j);
        let here = diagnostics_at(d, j);
        lemma_count_concat(prev, here, DiagnosticKind::UnknownType, text(d, i));
        if text(d, i) == text(d, j) {
            lemma_same_text_defs(d, i, j, d.nodes.len() as int);
        }
        lemma_count_small(here, DiagnosticKind::UnknownType, text(d, i));
        let v = DiagnosticView {
            kind: DiagnosticKind::UnknownType,
            span: span(d, i),
            text: text(d, i),
            related: Seq::empty(),
        };
        if i < k && defs_named(d, i, d.nodes.len() as int).len() == 0 {
            if i == j {
                assert(occurrence_diagnostics(d, k)[prev.len() as int] == v);
            } else {
                let x = choose|x: int| 0 <= x < prev.len() && #[trigger] prev[x] == v;
                assert(occurrence_diagnostics(d, k)[x] == v);
            }
        }
    }
}

/// A name declared N times in one scope yields exactly N duplicate diagnostics when
/// N > 1, and none when N = 1; each of them relates the N - 1 other occurrences.
pub proof fn lemma_duplicate_diagnostics(d: DocView, errs: Seq<ParseError>, i: int)
    requires
        0 <= i < d.nodes.len(),
        category(d, i) matches Some(c) && is_declaration(c),
    ensures
        ({
            let c = category(d, i)->0;
            let all = all_diagnostics(d, errs);
            &&& count_of(all, DiagnosticKind::Duplicate(c), text(d, i)) == if key_count(d, i)
                > 1 {
                key_count(d, i)
            } else {
                0
            }
            &&& forall|x: int|
                0 <= x < all.len() && (#[trigger] all[x]).kind == DiagnosticKind::Duplicate(c)
                    && all[x].text == text(d, i) ==> all[x].related.len() == key_count(d, i) - 1
        }),
{
    let c = category(d, i)->0;
    let k = DiagnosticKind::Duplicate(c);
    let name = text(d, i);
    let n = d.nodes.len() as int;
    let pd = parse_diagnostics(errs, errs.len() as int);
    let od = occurrence_diagnostics(d, n);
    let td = trailing_diagnostics(d);
    lemma_parse_kinds(errs, errs.len() as int, k, name);
    lemma_duplicate_occurrences(d, i, c, n);
    lemma_count_concat(pd, od, k, name);
    lemma_count_concat(pd + od, td, k, name);
    lemma_count_small(td, k, name);
    let all = all_diagnostics(d, errs);
    assert forall|x: int|
        0 <= x < all.len() && (#[trigger] all[x]).kind == k && all[x].text == name implies all[x].related.len()
        == key_count(d, i) - 1 by {
        if x < pd.len() {
            assert(all[x] == pd[x]);
        } else if x < pd.len() + od.len() {
            assert(all[x] == od[x - pd.len()]);
        }
    }
}

/// A type reference to a name that no type definition declares yields exactly one
/// unknown-type diagnostic per reference to that name, one of them at its own span;
/// a name with a definition yields none.
pub proof fn lemma_unknown_type_diagnostics(d: DocView, errs: Seq<ParseError>, i: int)
    requires
        0 <= i < d.nodes.len(),
        category(d, i) == Some(Category::TypeRef),
    ensures
        ({
            let all = all_diagnostics(d, errs);
            let undefined = defs_named(d, i, d.nodes.len() as int).len() == 0;
            &&& count_of(all, DiagnosticKind::UnknownType, text(d, i)) == if undefined {
                key_count(d, i)
            } else {
                0
            }
            &&& undefined ==> exists|x: int|
                0 <= x < all.len() && #[trigger] all[x] == (DiagnosticView {
                    kind: DiagnosticKind::UnknownType,
                    span: span(d, i),
                    text: text(d, i),
                    related: Seq::empty(),
                })
        }),
{
    let k = DiagnosticKind::UnknownType;
    let name = text(d, i);
    let n = d.nodes.len() as int;
    let pd = parse_diagnostics(errs, errs.len() as int);
    let od = occurrence_diagnostics(d, n);
    let td = trailing_diagnostics(d);
    lemma_parse_kinds(errs, errs.len() as int, k, name);
    lemma_unknown_occurrences(d, i, n);
    lemma_count_concat(pd, od, k, name);
    lemma_count_concat(pd + od, td, k, name);
    lemma_count_small(td, k, name);
    let all = all_diagnostics(d, errs);
    let v = DiagnosticView { kind: k, span: span(d, i), text: name, related: Seq::empty() };
    if defs_named(d, i, n).len() == 0 {
        let x = choose|x: int| 0 <= x < od.len() && #[trigger] od[x] == v;
        assert(all[pd.len() + x] == v);
    }
}

} // verus!
