use varlink_analysis::completion::completion;
use varlink_analysis::diagnostics::{diagnostics, Diagnostic, DiagnosticKind, ParseError};
use varlink_analysis::docstring::{docstring_for, hover, hover_markdown};
use varlink_analysis::format::{formatting, formatting_edit, Indent};
use varlink_analysis::outline::{
    document_symbols, folding_range, selection_range, semantic_tokens_full, SymbolKind, TokenType,
};
use varlink_analysis::resolve::{goto_definition, prepare_rename, references, rename};
use varlink_analysis::span_index::{capture_at, leaf_at, most_specific_at, subtree_at};
use varlink_analysis::symbols::{build_symbol_table, Category};
use varlink_analysis::tree::{Document, Node, NodeKind, Position, Span, TreeError, TreeFault};

fn pos_of(src: &str, byte: usize) -> Position {
    let before = &src[..byte];
    let line = before.matches('\n').count() as u32;
    let col = match before.rfind('\n') {
        Some(i) => byte - i - 1,
        None => byte,
    };
    Position { line, character: col as u32 }
}

fn at(line: u32, character: u32) -> Position {
    Position { line, character }
}

/// Lays out nodes in document order, each found as text at or after the previous start.
struct Layout {
    src: &'static str,
    nodes: Vec<Node>,
    cursor: usize,
}

impl Layout {
    fn new(src: &'static str) -> Layout {
        let end = pos_of(src, src.len());
        let root = Node {
            kind: NodeKind::Interface,
            span: Span { start: at(0, 0), end },
            start_byte: 0,
            end_byte: src.len(),
            parent: None,
        };
        Layout { src, nodes: vec![root], cursor: 0 }
    }

    fn node(&mut self, kind: NodeKind, parent: usize, text: &str) -> usize {
        let start = self.cursor + self.src[self.cursor..].find(text).unwrap();
        let end = start + text.len();
        self.cursor = start;
        self.nodes.push(Node {
            kind,
            span: Span { start: pos_of(self.src, start), end: pos_of(self.src, end) },
            start_byte: start,
            end_byte: end,
            parent: Some(parent),
        });
        self.nodes.len() - 1
    }

    fn span_of(&self, i: usize) -> Span {
        self.nodes[i].span
    }

    fn build(&self) -> Document {
        Document::new(self.nodes.clone(), self.src.as_bytes().to_vec()).unwrap()
    }
}

fn header(l: &mut Layout) {
    let decl = l.node(NodeKind::InterfaceDeclaration, 0, "interface org.example");
    l.node(NodeKind::Keyword, decl, "interface");
    l.node(NodeKind::InterfaceName, decl, "org.example");
    l.node(NodeKind::Eol, 0, "\n");
}

/// `type <name> (<field>: <ty>)` on one line, with its end of line; returns the name node.
fn typedef(l: &mut Layout, text: &str, name: &str, field: &str, ty: &str) -> usize {
    let t = l.node(NodeKind::Typedef, 0, text);
    l.node(NodeKind::Keyword, t, "type");
    let n = l.node(NodeKind::Name, t, name);
    let s = l.node(NodeKind::Struct, t, "(");
    l.nodes[s].end_byte = l.nodes[t].end_byte;
    l.nodes[s].span.end = l.nodes[t].span.end;
    let f = l.node(NodeKind::StructField, s, field);
    let fe = l.nodes[f].start_byte + field.len() + 2 + ty.len();
    l.nodes[f].end_byte = fe;
    l.nodes[f].span.end = pos_of(l.src, fe);
    l.node(NodeKind::FieldName, f, field);
    l.node(NodeKind::BuiltinType, f, ty);
    l.node(NodeKind::Eol, 0, "\n");
    n
}

const DUPLICATE_TYPES: &str =
    "interface org.example\ntype A (x: int)\ntype A (y: string)\nmethod M (a: A) -> ()\n";

/// The duplicated type `A`, then a method that refers to it. Returns the layout, the
/// two definition names, and the reference's name.
fn duplicate_types() -> (Layout, usize, usize, usize) {
    let mut l = Layout::new(DUPLICATE_TYPES);
    header(&mut l);
    let a1 = typedef(&mut l, "type A (x: int)", "A", "x", "int");
    let a2 = typedef(&mut l, "type A (y: string)", "A", "y", "string");
    let m = l.node(NodeKind::Method, 0, "method M (a: A) -> ()");
    l.node(NodeKind::Keyword, m, "method");
    l.node(NodeKind::Name, m, "M");
    let s = l.node(NodeKind::Struct, m, "(a: A)");
    let f = l.node(NodeKind::StructField, s, "a: A");
    l.node(NodeKind::FieldName, f, "a");
    let tr = l.node(NodeKind::Typeref, f, "A");
    let r = l.node(NodeKind::Name, tr, "A");
    l.node(NodeKind::Arrow, m, "->");
    l.node(NodeKind::Struct, m, "()");
    l.node(NodeKind::Eol, 0, "\n");
    (l, a1, a2, r)
}

const POINTS: &str = "interface org.example\n\n# A point\n# in the plane\ntype Point (x: int)\n\n# unrelated\n\ntype Shape (at: Point)\nmethod Move (p: Point) -> (to: Point)\n";

/// A documented type `Point`, referenced three times.
fn points() -> (Layout, usize, Vec<usize>) {
    let mut l = Layout::new(POINTS);
    header(&mut l);
    l.node(NodeKind::Eol, 0, "\n");
    l.node(NodeKind::Comment, 0, "# A point");
    l.node(NodeKind::Eol, 0, "\n");
    l.node(NodeKind::Comment, 0, "# in the plane");
    l.node(NodeKind::Eol, 0, "\n");
    let p = typedef(&mut l, "type Point (x: int)", "Point", "x", "int");
    l.node(NodeKind::Eol, 0, "\n");
    l.node(NodeKind::Comment, 0, "# unrelated");
    l.node(NodeKind::Eol, 0, "\n");
    l.node(NodeKind::Eol, 0, "\n");
    let t = l.node(NodeKind::Typedef, 0, "type Shape (at: Point)");
    l.node(NodeKind::Keyword, t, "type");
    l.node(NodeKind::Name, t, "Shape");
    let s = l.node(NodeKind::Struct, t, "(at: Point)");
    let f = l.node(NodeKind::StructField, s, "at: Point");
    l.node(NodeKind::FieldName, f, "at");
    let tr1 = l.node(NodeKind::Typeref, f, "Point");
    let r1 = l.node(NodeKind::Name, tr1, "Point");
    l.node(NodeKind::Eol, 0, "\n");
    let m = l.node(NodeKind::Method, 0, "method Move (p: Point) -> (to: Point)");
    l.node(NodeKind::Keyword, m, "method");
    l.node(NodeKind::Name, m, "Move");
    let s1 = l.node(NodeKind::Struct, m, "(p: Point)");
    let f1 = l.node(NodeKind::StructField, s1, "p: Point");
    l.node(NodeKind::FieldName, f1, "p");
    let tr2 = l.node(NodeKind::Typeref, f1, "Point");
    let r2 = l.node(NodeKind::Name, tr2, "Point");
    l.node(NodeKind::Arrow, m, "->");
    let s2 = l.node(NodeKind::Struct, m, "(to: Point)");
    let f2 = l.node(NodeKind::StructField, s2, "to: Point");
    l.node(NodeKind::FieldName, f2, "to");
    let tr3 = l.node(NodeKind::Typeref, f2, "Point");
    let r3 = l.node(NodeKind::Name, tr3, "Point");
    l.node(NodeKind::Eol, 0, "\n");
    (l, p, vec![r1, r2, r3])
}

fn kinds(ds: &[Diagnostic]) -> Vec<DiagnosticKind> {
    ds.iter().map(|d| d.kind).collect()
}

#[test]
fn duplicate_types_referenced_by_method() {
    let (l, a1, a2, _) = duplicate_types();
    let doc = l.build();
    let ds = diagnostics(&doc, &vec![]);
    assert_eq!(kinds(&ds), vec![DiagnosticKind::Duplicate(Category::TypeDef); 2]);
    assert_eq!(ds[0].span, l.span_of(a1));
    assert_eq!(ds[0].related, vec![l.span_of(a2)]);
    assert_eq!(ds[1].span, l.span_of(a2));
    assert_eq!(ds[1].related, vec![l.span_of(a1)]);
    assert_eq!(ds[0].text, b"A".to_vec());
}

#[test]
fn duplicate_reply_fields_scoped_to_their_struct() {
    let src = "interface org.example\nmethod Get (name: string) -> (name: string, name: int)\n";
    let mut l = Layout::new(src);
    header(&mut l);
    let m = l.node(NodeKind::Method, 0, "method Get (name: string) -> (name: string, name: int)");
    l.node(NodeKind::Keyword, m, "method");
    l.node(NodeKind::Name, m, "Get");
    let input = l.node(NodeKind::Struct, m, "(name: string)");
    let f = l.node(NodeKind::StructField, input, "name: string");
    l.node(NodeKind::FieldName, f, "name");
    l.node(NodeKind::BuiltinType, f, "string");
    l.node(NodeKind::Arrow, m, "->");
    let reply = l.node(NodeKind::Struct, m, "(name: string, name: int)");
    let f1 = l.node(NodeKind::StructField, reply, "name: string");
    let n1 = l.node(NodeKind::FieldName, f1, "name");
    l.node(NodeKind::BuiltinType, f1, "string");
    let f2 = l.node(NodeKind::StructField, reply, "name: int");
    let n2 = l.node(NodeKind::FieldName, f2, "name");
    l.node(NodeKind::BuiltinType, f2, "int");
    l.node(NodeKind::Eol, 0, "\n");
    let doc = l.build();
    let ds = diagnostics(&doc, &vec![]);
    assert_eq!(kinds(&ds), vec![DiagnosticKind::Duplicate(Category::Field(reply)); 2]);
    assert_eq!((ds[0].span, ds[1].span), (l.span_of(n1), l.span_of(n2)));
    assert_eq!(ds[0].related, vec![l.span_of(n2)]);
    assert_eq!(ds[1].related, vec![l.span_of(n1)]);
}

#[test]
fn three_declarations_give_three_diagnostics() {
    let src = "interface org.example\ntype A (x: int)\ntype A (y: int)\ntype A (z: int)\ntype B (w: int)\n";
    let mut l = Layout::new(src);
    header(&mut l);
    let a1 = typedef(&mut l, "type A (x: int)", "A", "x", "int");
    let a2 = typedef(&mut l, "type A (y: int)", "A", "y", "int");
    let a3 = typedef(&mut l, "type A (z: int)", "A", "z", "int");
    typedef(&mut l, "type B (w: int)", "B", "w", "int");
    let ds = diagnostics(&l.build(), &vec![]);
    assert_eq!(ds.len(), 3);
    for d in &ds {
        assert_eq!(d.related.len(), 2);
    }
    assert_eq!(ds[1].span, l.span_of(a2));
    assert_eq!(ds[1].related, vec![l.span_of(a1), l.span_of(a3)]);
}

#[test]
fn single_declaration_gives_no_diagnostic() {
    let (l, _, _) = points();
    assert!(diagnostics(&l.build(), &vec![]).is_empty());
}

#[test]
fn unknown_type_reported_once_per_reference() {
    let src = "interface org.example\nmethod M (a: Missing) -> (b: Missing)\n";
    let mut l = Layout::new(src);
    header(&mut l);
    let m = l.node(NodeKind::Method, 0, "method M (a: Missing) -> (b: Missing)");
    l.node(NodeKind::Keyword, m, "method");
    l.node(NodeKind::Name, m, "M");
    let s1 = l.node(NodeKind::Struct, m, "(a: Missing)");
    let f1 = l.node(NodeKind::StructField, s1, "a: Missing");
    l.node(NodeKind::FieldName, f1, "a");
    let t1 = l.node(NodeKind::Typeref, f1, "Missing");
    let r1 = l.node(NodeKind::Name, t1, "Missing");
    l.node(NodeKind::Arrow, m, "->");
    let s2 = l.node(NodeKind::Struct, m, "(b: Missing)");
    let f2 = l.node(NodeKind::StructField, s2, "b: Missing");
    l.node(NodeKind::FieldName, f2, "b");
    let t2 = l.node(NodeKind::Typeref, f2, "Missing");
    let r2 = l.node(NodeKind::Name, t2, "Missing");
    l.node(NodeKind::Eol, 0, "\n");
    let ds = diagnostics(&l.build(), &vec![]);
    assert_eq!(kinds(&ds), vec![DiagnosticKind::UnknownType; 2]);
    assert_eq!((ds[0].span, ds[1].span), (l.span_of(r1), l.span_of(r2)));
    assert_eq!(ds[0].text, b"Missing".to_vec());
    assert!(ds[0].related.is_empty());
}

#[test]
fn missing_trailing_newline_at_end_of_document() {
    let src = "interface org.example\ntype A (x: int)";
    let mut l = Layout::new(src);
    header(&mut l);
    let t = l.node(NodeKind::Typedef, 0, "type A (x: int)");
    l.node(NodeKind::Keyword, t, "type");
    l.node(NodeKind::Name, t, "A");
    let ds = diagnostics(&l.build(), &vec![]);
    assert_eq!(kinds(&ds), vec![DiagnosticKind::MissingTrailingNewline]);
    assert_eq!(ds[0].span, Span { start: at(2, 0), end: at(2, 0) });
}

#[test]
fn parse_errors_reported_once_per_span() {
    let (l, _, _) = points();
    let e = |a: u32, b: u32, m: &str| ParseError {
        span: Span { start: at(a, 0), end: at(b, 1) },
        message: m.as_bytes().to_vec(),
    };
    let errs = vec![e(1, 1, "unexpected"), e(1, 1, "again"), e(2, 2, "other")];
    let ds = diagnostics(&l.build(), &errs);
    assert_eq!(kinds(&ds), vec![DiagnosticKind::Parse; 2]);
    assert_eq!(ds[0].text, b"unexpected".to_vec());
    assert_eq!(ds[1].span, errs[2].span);
}

#[test]
fn malformed_trees_are_refused() {
    let node = |start: u32, end: u32, parent: Option<usize>| Node {
        kind: NodeKind::Other,
        span: Span { start: at(0, start), end: at(0, end) },
        start_byte: start as usize,
        end_byte: end as usize,
        parent,
    };
    let src = b"abcdef".to_vec();
    let err = |nodes: Vec<Node>| Document::new(nodes, src.clone()).err().unwrap();
    assert_eq!(err(vec![node(0, 9, None)]), TreeError { index: 0, fault: TreeFault::ByteRange });
    let mut inverted = node(0, 3, None);
    inverted.span.end = at(0, 0);
    inverted.span.start = at(0, 2);
    assert_eq!(err(vec![inverted]).fault, TreeFault::InvertedSpan);
    assert_eq!(
        err(vec![node(0, 6, None), node(3, 4, Some(0)), node(1, 2, Some(0))]),
        TreeError { index: 2, fault: TreeFault::Unsorted }
    );
    assert_eq!(
        err(vec![node(0, 6, None), node(1, 2, Some(1))]),
        TreeError { index: 1, fault: TreeFault::Parent }
    );
    assert_eq!(
        err(vec![node(0, 6, None), node(1, 2, Some(0)), node(1, 4, Some(1))]),
        TreeError { index: 2, fault: TreeFault::Escapes }
    );
    assert!(Document::new(vec![node(0, 6, None), node(1, 2, Some(0))], src.clone()).is_ok());
}

#[test]
fn leaf_at_finds_narrowest_node() {
    let (l, a1, _, _) = duplicate_types();
    let doc = l.build();
    // On the `A` of the first type: the name, not the typedef that starts earlier.
    assert_eq!(leaf_at(&doc, at(1, 5)), Some(a1));
    // Between `type` and `A`: no token covers the position.
    assert_eq!(leaf_at(&doc, at(1, 4)), None);
    // Past the end of the document.
    assert_eq!(leaf_at(&doc, at(9, 0)), None);
}

#[test]
fn leaf_at_prefers_deeper_node_at_equal_start() {
    let (l, _, _, r) = duplicate_types();
    let doc = l.build();
    // The reference `A` starts a typeref and its name at the same position.
    assert_eq!(leaf_at(&doc, at(3, 13)), Some(r));
    assert_eq!(doc.nodes()[r - 1].kind, NodeKind::Typeref);
}

#[test]
fn most_specific_at_walks_up_to_covering_node() {
    let (l, a1, _, _) = duplicate_types();
    let doc = l.build();
    let typedef = a1 - 2;
    assert_eq!(doc.nodes()[typedef].kind, NodeKind::Typedef);
    assert_eq!(most_specific_at(&doc, at(1, 4)), Some(typedef));
    assert_eq!(most_specific_at(&doc, at(1, 5)), Some(a1));
    assert_eq!(most_specific_at(&doc, at(9, 0)), None);
}

#[test]
fn capture_at_finds_enclosing_kind() {
    let (l, a1, _, r) = duplicate_types();
    let doc = l.build();
    assert_eq!(capture_at(&doc, at(1, 9), NodeKind::Typedef), Some(a1 - 2));
    let method = capture_at(&doc, at(3, 13), NodeKind::Method).unwrap();
    assert_eq!(doc.nodes()[method].kind, NodeKind::Method);
    assert_eq!(capture_at(&doc, at(3, 13), NodeKind::Enum), None);
    assert!(r > method);
}

#[test]
fn subtree_at_spans_covering_run() {
    let (l, _, _, r) = duplicate_types();
    let doc = l.build();
    let (a, b) = subtree_at(&doc, at(3, 13));
    assert_eq!(b, r + 1);
    // The name and its typeref; the field's name `a` ended before the cursor.
    assert_eq!(a, r - 1);
    let (a, b) = subtree_at(&doc, at(1, 4));
    assert_eq!(a, b);
}

#[test]
fn symbol_table_groups_by_scope_and_name() {
    let (l, a1, a2, r) = duplicate_types();
    let table = build_symbol_table(&l.build());
    let keys: Vec<(Category, Vec<u8>)> = table.iter().map(|g| (g.category, g.name.clone())).collect();
    assert_eq!(keys[0], (Category::TypeDef, b"A".to_vec()));
    assert_eq!(table[0].spans, vec![l.span_of(a1), l.span_of(a2)]);
    let reference = table.iter().find(|g| g.category == Category::TypeRef).unwrap();
    assert_eq!(reference.spans, vec![l.span_of(r)]);
    // x, y, M, a, and the reference: six keys in all.
    assert_eq!(table.len(), 6);
    assert!(matches!(table[1].category, Category::Field(_)));
}

#[test]
fn goto_definition_lists_every_definition() {
    let (l, a1, a2, _) = duplicate_types();
    let doc = l.build();
    assert_eq!(goto_definition(&doc, at(3, 14)), Some(vec![l.span_of(a1), l.span_of(a2)]));
    assert_eq!(goto_definition(&doc, at(3, 1)), None);
}

#[test]
fn references_exclude_the_definition() {
    let (l, _, refs) = points();
    let doc = l.build();
    let spans: Vec<Span> = refs.iter().map(|&r| l.span_of(r)).collect();
    assert_eq!(references(&doc, at(4, 6)), Some(spans.clone()));
    // Anywhere inside the type definition.
    assert_eq!(references(&doc, at(4, 15)), Some(spans));
    assert_eq!(references(&doc, at(9, 2)), None);
}

#[test]
fn prepare_rename_only_on_identifiers() {
    let (l, p, refs) = points();
    let doc = l.build();
    assert_eq!(prepare_rename(&doc, at(9, 18)), Some(l.span_of(refs[1])));
    // The cursor right after the name still touches it.
    assert_eq!(prepare_rename(&doc, at(4, 10)), Some(l.span_of(p)));
    assert_eq!(prepare_rename(&doc, at(4, 1)), None);
}

#[test]
fn rename_type_rewrites_definition_and_references() {
    let (l, p, refs) = points();
    let doc = l.build();
    let edits = rename(&doc, at(4, 6), &b"Place".to_vec()).unwrap();
    let spans: Vec<Span> = edits.iter().map(|e| e.span).collect();
    let mut expected = vec![l.span_of(p)];
    expected.extend(refs.iter().map(|&r| l.span_of(r)));
    assert_eq!(spans, expected);
    assert!(edits.iter().all(|e| e.new_text == b"Place".to_vec()));
}

#[test]
fn rename_round_trip_finds_same_occurrences() {
    let (l, _, refs) = points();
    let doc = l.build();
    let first = rename(&doc, at(9, 16), &b"Spot!".to_vec()).unwrap();
    assert_eq!(first.len(), refs.len() + 1);
    let edited: &'static str = Box::leak(POINTS.replace("Point", "Spot!").into_boxed_str());
    let again = Document::new(l.nodes.clone(), edited.as_bytes().to_vec()).unwrap();
    let second = rename(&again, at(9, 16), &b"Point".to_vec()).unwrap();
    let a: Vec<Span> = first.iter().map(|e| e.span).collect();
    let b: Vec<Span> = second.iter().map(|e| e.span).collect();
    assert_eq!(a, b);
}

#[test]
fn rename_method_rewrites_one_occurrence() {
    let (l, _, _) = points();
    let doc = l.build();
    let edits = rename(&doc, at(9, 8), &b"Shift".to_vec()).unwrap();
    assert_eq!(edits.len(), 1);
    assert_eq!(edits[0].span, Span { start: at(9, 7), end: at(9, 11) });
    assert!(rename(&doc, at(9, 2), &b"X".to_vec()).is_none());
}

#[test]
fn docstring_collects_contiguous_comments() {
    let (l, p, _) = points();
    let doc = l.build();
    let typedef = p - 2;
    let d = docstring_for(&doc, typedef);
    assert_eq!(d.lines, vec![b"A point".to_vec(), b"in the plane".to_vec()]);
    assert_eq!(d.code, b"type Point (x: int)".to_vec());
    assert_eq!(d.span, l.span_of(typedef));
}

#[test]
fn docstring_stops_at_blank_line() {
    let (l, _, refs) = points();
    let doc = l.build();
    // `type Shape` has `# unrelated` two lines above it, after a blank line.
    let shape = refs[0] - 7;
    assert_eq!(doc.nodes()[shape].kind, NodeKind::Typedef);
    assert!(docstring_for(&doc, shape).lines.is_empty());
}

#[test]
fn docstring_ignores_indented_comment() {
    let src = "interface org.example\n  # indented\ntype A (x: int)\n";
    let mut l = Layout::new(src);
    header(&mut l);
    l.node(NodeKind::Comment, 0, "# indented");
    l.node(NodeKind::Eol, 0, "\n");
    let a = typedef(&mut l, "type A (x: int)", "A", "x", "int");
    let d = docstring_for(&l.build(), a - 2);
    assert!(d.lines.is_empty());
}

#[test]
fn hover_on_reference_shows_definition() {
    let (l, p, _) = points();
    let doc = l.build();
    let h = hover(&doc, at(9, 16)).unwrap();
    assert_eq!(h.span, l.span_of(p - 2));
    assert_eq!(h.lines.len(), 2);
    let (dl, _, _, _) = duplicate_types();
    assert!(hover(&dl.build(), at(3, 13)).is_none());
    assert!(hover(&doc, at(4, 1)).is_none());
}

#[test]
fn folding_and_outline() {
    let (l, _, _, _) = duplicate_types();
    let doc = l.build();
    // Two type definitions and their structs, the method and its two structs.
    assert_eq!(folding_range(&doc).len(), 7);
    let symbols = document_symbols(&doc);
    let kinds: Vec<SymbolKind> = symbols.iter().map(|s| s.kind).collect();
    assert_eq!(
        kinds,
        vec![SymbolKind::Namespace, SymbolKind::Class, SymbolKind::Class, SymbolKind::Method]
    );
    assert_eq!(symbols[0].name, b"org.example".to_vec());
    assert_eq!(symbols[3].selection_range, Span { start: at(3, 7), end: at(3, 8) });
}

#[test]
fn selection_grows_through_ancestors() {
    let (l, a1, _, _) = duplicate_types();
    let doc = l.build();
    let chain = selection_range(&doc, at(1, 5)).unwrap();
    assert_eq!(chain, vec![l.span_of(a1), l.span_of(a1 - 2), l.span_of(0)]);
    assert!(selection_range(&doc, at(1, 4)).is_none());
}

#[test]
fn semantic_tokens_classify_nodes() {
    let (l, _, _, _) = duplicate_types();
    let tokens = semantic_tokens_full(&l.build());
    let types: Vec<TokenType> = tokens.iter().take(6).map(|t| t.token_type).collect();
    assert_eq!(
        types,
        vec![
            TokenType::Interface,
            TokenType::Namespace,
            TokenType::Keyword,
            TokenType::Type,
            TokenType::Property,
            TokenType::Type,
        ]
    );
    assert_eq!(tokens.last().unwrap().token_type, TokenType::Decorator);
}

#[test]
fn completion_offers_declarations_on_blank_line() {
    let (l, _, _, _) = duplicate_types();
    let doc = l.build();
    let plan = completion(&doc, &b"  m".to_vec(), 2);
    assert!(plan.declarations);
    assert!(!plan.builtin_types);
    assert!(plan.type_names.is_empty());
}

#[test]
fn completion_offers_types_after_colon() {
    let (l, _, _, _) = duplicate_types();
    let doc = l.build();
    let plan = completion(&doc, &b"type B (x: [] i".to_vec(), 14);
    assert!(!plan.declarations);
    assert!(plan.builtin_types);
    assert_eq!(plan.type_names, vec![b"A".to_vec()]);
    let commented = completion(&doc, &b"type B (x: i # note".to_vec(), 11);
    assert!(!commented.builtin_types);
}

#[test]
fn formatting_rewrites_whole_document() {
    let source = "interface   org.example\ntype A(x:int)\n";
    let edit = formatting(source, Indent::Spaces(2)).ok().unwrap();
    assert_eq!(edit.span, Span { start: at(0, 0), end: at(3, 0) });
    let text = String::from_utf8(edit.new_text).unwrap();
    assert_ne!(text, source);
    assert!(text.starts_with("interface org.example\n"));
    assert!(text.contains("type A (x: int)"));
}

#[test]
fn formatting_edit_spans_past_last_line() {
    let edit = formatting_edit("a\nb", b"x".to_vec());
    assert_eq!(edit.span, Span { start: at(0, 0), end: at(2, 0) });
    assert_eq!(edit.new_text, b"x".to_vec());
}

#[test]
fn empty_document_has_no_findings() {
    let doc = Document::new(vec![], vec![]).unwrap();
    assert!(diagnostics(&doc, &vec![]).is_empty());
    assert_eq!(leaf_at(&doc, at(0, 0)), None);
    assert_eq!(most_specific_at(&doc, at(0, 0)), None);
    assert_eq!(subtree_at(&doc, at(0, 0)), (0, 0));
    assert!(build_symbol_table(&doc).is_empty());
    assert!(rename(&doc, at(0, 0), &b"X".to_vec()).is_none());
}

#[test]
fn hover_card_renders_markdown() {
    let (l, p, _) = points();
    let card = docstring_for(&l.build(), p - 2);
    let md = String::from_utf8(hover_markdown(&card)).unwrap();
    assert_eq!(md, "```varlink\ntype Point (x: int)\n```\n\n---\nA point\nin the plane\n");
    let (dl, a1, _, _) = duplicate_types();
    let bare = docstring_for(&dl.build(), a1 - 2);
    assert_eq!(String::from_utf8(hover_markdown(&bare)).unwrap(), "```varlink\ntype A (x: int)\n```");
}

#[test]
fn diagnostic_messages_name_the_finding() {
    let (l, _, _, _) = duplicate_types();
    let ds = diagnostics(&l.build(), &vec![]);
    assert_eq!(ds[0].message(), b"type definition `A` declared multiple times".to_vec());
    let unknown = Diagnostic {
        kind: DiagnosticKind::UnknownType,
        span: ds[0].span,
        text: b"Missing".to_vec(),
        related: vec![],
    };
    assert_eq!(unknown.message(), b"unknown type `Missing`".to_vec());
    let field = Diagnostic { kind: DiagnosticKind::Duplicate(Category::Field(3)), ..unknown };
    assert_eq!(field.message(), b"struct field `Missing` declared multiple times".to_vec());
}
