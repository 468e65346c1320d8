//! Per-node views of a document for an editor: folding ranges, document symbols,
//! selection ranges, and semantic token classes.

use vstd::prelude::*;
use crate::span_index::{leaf_at, leaf_spec};
use crate::symbols::text_of;
use crate::tree::{first_child, kind, parent, span, text, DocView, Document, NodeKind, Position, Span};

verus! {

/// Declarations and compound types fold.
pub open spec fn folds(k: NodeKind) -> bool {
    k == NodeKind::Method || k == NodeKind::Error || k == NodeKind::Typedef || k
        == NodeKind::Struct || k == NodeKind::Enum
}

/// The spans of the folding nodes among the first `k`, in document order.
pub open spec fn folds_upto(d: DocView, k: int) -> Seq<Span>
    decreases k,
{
    if k <= 0 {
        Seq::empty()
    } else if folds(kind(d, k - 1)) {
        folds_upto(d, k - 1).push(span(d, k - 1))
    } else {
        folds_upto(d, k - 1)
    }
}

/// The spans of every method, error, type definition, struct and enum, in document
/// order.
pub fn folding_range(doc: &Document) -> (r: Vec<Span>)
    ensures
        r@ == folds_upto(doc@, doc@.nodes.len() as int),
{
    let nodes = doc.nodes();
    let n = nodes.len();
    let mut r: Vec<Span> = Vec::new();
    let mut j: usize = 0;
    while j < n
        invariant
            nodes@ == doc@.nodes,
            n == nodes@.len(),
            j <= n,
            r@ == folds_upto(doc@, j as int),
        decreases n - j,
    {
        let k = nodes[j].kind;
        if k == NodeKind::Method || k == NodeKind::Error || k == NodeKind::Typedef || k
            == NodeKind::Struct || k == NodeKind::Enum {
            r.push(nodes[j].span);
        }
        j = j + 1;
    }
    r
}

/// How an outline shows a declaration.
#[derive(Clone, Copy, Debug, PartialEq, Eq, Structural)]
pub enum SymbolKind {
    Namespace,
    Event,
    Method,
    Class,
}

/// A declaration in the outline: its name, what it is, its whole span, and the span of
/// its name.
pub struct DocumentSymbol {
    pub name: Vec<u8>,
    pub kind: SymbolKind,
    pub range: Span,
    pub selection_range: Span,
}

pub struct SymbolView {
    pub name: Seq<u8>,
    pub kind: SymbolKind,
    pub range: Span,
    pub selection_range: Span,
}

impl View for DocumentSymbol {
    type V = SymbolView;

    open spec fn view(&self) -> SymbolView {
        SymbolView {
            name: self.name@,
            kind: self.kind,
            range: self.range,
            selection_range: self.selection_range,
        }
    }
}

pub open spec fn symbol_kind(k: NodeKind) -> Option<SymbolKind> {
    match k {
        NodeKind::InterfaceDeclaration => Some(SymbolKind::Namespace),
        NodeKind::Error => Some(SymbolKind::Event),
        NodeKind::Method => Some(SymbolKind::Method),
        NodeKind::Typedef => Some(SymbolKind::Class),
        _ => None,
    }
}

/// The kind of the node that names a declaration of kind `k`.
pub open spec fn name_kind(k: NodeKind) -> NodeKind {
    if k == NodeKind::InterfaceDeclaration {
        NodeKind::InterfaceName
    } else {
        NodeKind::Name
    }
}

/// The outline entry of node `j`, for a declaration with a name.
pub open spec fn symbol_at(d: DocView, j: int) -> Option<SymbolView> {
    match symbol_kind(kind(d, j)) {
        Some(sk) => match first_child(d, j, name_kind(kind(d, j))) {
            Some(c) => Some(
                SymbolView { name: text(d, c), kind: sk, range: span(d, j), selection_range: span(d, c) },
            ),
            None => None,
        },
        None => None,
    }
}

pub open spec fn symbols_upto(d: DocView, k: int) -> Seq<SymbolView>
    decreases k,
{
    if k <= 0 {
        Seq::empty()
    } else {
        match symbol_at(d, k - 1) {
            Some(s) => symbols_upto(d, k - 1).push(s),
            None => symbols_upto(d, k - 1),
        }
    }
}

/// The interface declaration, errors, methods and type definitions that have a name,
/// in document order.
pub fn document_symbols(doc: &Document) -> (r: Vec<DocumentSymbol>)
    ensures
        r@.map_values(|s: DocumentSymbol| s@) == symbols_upto(doc@, doc@.nodes.len() as int),
{
    let ghost d = doc@;
    let nodes = doc.nodes();
    let n = nodes.len();
    let mut r: Vec<DocumentSymbol> = Vec::new();
    let mut j: usize = 0;
    while j < n
        invariant
            d == doc@,
            nodes@ == d.nodes,
            n == nodes@.len(),
            j <= n,
            r@.map_values(|s: DocumentSymbol| s@) == symbols_upto(d, j as int),
        decreases n - j,
    {
        let k = nodes[j].kind;
        let sk = match k {
            NodeKind::InterfaceDeclaration => Some(SymbolKind::Namespace),
            NodeKind::Error => Some(SymbolKind::Event),
            NodeKind::Method => Some(SymbolKind::Method),
            NodeKind::Typedef => Some(SymbolKind::Class),
            _ => None,
        };
        if let Some(sk) = sk {
            let nk = if k == NodeKind::InterfaceDeclaration {
                NodeKind::InterfaceName
            } else {
                NodeKind::Name
            };
            if let Some(c) = doc.first_child(j, nk) {
                r.push(
                    DocumentSymbol {
                        name: text_of(doc, c),
                        kind: sk,
                        range: nodes[j].span,
                        selection_range: nodes[c].span,
                    },
                );
            }
        }
        proof {
            assert(r@.map_values(|s: DocumentSymbol| s@) =~= symbols_upto(d, j + 1));
        }
        j = j + 1;
    }
    r
}

/// The spans of node `i` and of each of its ancestors, innermost first.
pub open spec fn span_chain(d: DocView, i: int) -> Seq<Span>
    decreases i,
{
    match parent(d, i) {
        Some(q) => if 0 <= q < i {
            seq![span(d, i)] + span_chain(d, q)
        } else {
            seq![span(d, i)]
        },
        None => seq![span(d, i)],
    }
}

/// The nested spans to grow a selection through from `p`: the narrowest node covering
/// `p`, then each of its ancestors. None when no narrowest node covers `p`.
pub fn selection_range(doc: &Document, p: Position) -> (r: Option<Vec<Span>>)
    ensures
        match leaf_spec(doc@, p) {
            Some(l) => r matches Some(v) && v@ == span_chain(doc@, l),
            None => r is None,
        },
{
    let ghost d = doc@;
    let l = match leaf_at(doc, p) {
        Some(l) => l,
        None => {
            return None;
        },
    };
    let nodes = doc.nodes();
    let mut chain: Vec<Span> = Vec::new();
    let mut cur = l;
    loop
        invariant
            d == doc@,
            nodes@ == d.nodes,
            cur < d.nodes.len(),
            l < d.nodes.len(),
            leaf_spec(d, p) == Some(l as int),
            chain@ + span_chain(d, cur as int) == span_chain(d, l as int),
        decreases cur,
    {
        let node = nodes[cur];
        let ghost before = chain@;
        chain.push(node.span);
        assert(chain@ == before + seq![node.span]);
        match node.parent {
            Some(q) => {
                if q < cur {
                    proof {
                        assert(span_chain(d, cur as int) == seq![node.span] + span_chain(
                            d,
                            q as int,
                        ));
                        assert(chain@ + span_chain(d, q as int) =~= span_chain(d, l as int));
                    }
                    cur = q;
                } else {
                    proof {
                        assert(chain@ =~= span_chain(d, l as int));
                    }
                    return Some(chain);
                }
            },
            None => {
                proof {
                    assert(chain@ =~= span_chain(d, l as int));
                }
                return Some(chain);
            },
        }
    }
}

/// The semantic classes that a highlighter distinguishes.
#[derive(Clone, Copy, Debug, PartialEq, Eq, Structural)]
pub enum TokenType {
    Comment,
    Decorator,
    EnumMember,
    Event,
    Interface,
    Keyword,
    Method,
    Namespace,
    Property,
    Type,
}

/// A span and its semantic class.
#[derive(Clone, Copy, Debug, PartialEq, Eq, Structural)]
pub struct SemanticToken {
    pub span: Span,
    pub token_type: TokenType,
}

pub open spec fn parent_kind(d: DocView, j: int) -> Option<NodeKind> {
    match parent(d, j) {
        Some(q) => Some(kind(d, q)),
        None => None,
    }
}

/// The semantic class of node `j`, if it has one.
pub open spec fn token_of(d: DocView, j: int) -> Option<TokenType> {
    match kind(d, j) {
        NodeKind::Comment => Some(TokenType::Comment),
        NodeKind::Keyword => if parent_kind(d, j) == Some(NodeKind::InterfaceDeclaration) {
            Some(TokenType::Interface)
        } else {
            Some(TokenType::Keyword)
        },
        NodeKind::Name => match parent_kind(d, j) {
            Some(NodeKind::Method) => Some(TokenType::Method),
            Some(NodeKind::Typedef) => Some(TokenType::Type),
            Some(NodeKind::Error) => Some(TokenType::Event),
            _ => None,
        },
        NodeKind::InterfaceName => Some(TokenType::Namespace),
        NodeKind::FieldName => Some(TokenType::Property),
        NodeKind::EnumMember => Some(TokenType::EnumMember),
        NodeKind::Typeref => Some(TokenType::Type),
        NodeKind::BuiltinType => Some(TokenType::Type),
        NodeKind::Arrow => Some(TokenType::Decorator),
        _ => None,
    }
}

pub open spec fn tokens_upto(d: DocView, k: int) -> Seq<SemanticToken>
    decreases k,
{
    if k <= 0 {
        Seq::empty()
    } else {
        match token_of(d, k - 1) {
            Some(t) => tokens_upto(d, k - 1).push(
                SemanticToken { span: span(d, k - 1), token_type: t },
            ),
            None => tokens_upto(d, k - 1),
        }
    }
}

fn token_at(doc: &Document, j: usize) -> (r: Option<TokenType>)
    requires
        j < doc@.nodes.len(),
    ensures
        r == token_of(doc@, j as int),
{
    proof {
        use_type_invariant(doc);
        assert(crate::tree::fault_of(doc@, j as int) is None);
    }
    let nodes = doc.nodes();
    let node = nodes[j];
    let pk = match node.parent {
        Some(q) => Some(nodes[q].kind),
        None => None,
    };
    match node.kind {
        NodeKind::Comment => Some(TokenType::Comment),
        NodeKind::Keyword => match pk {
            Some(NodeKind::InterfaceDeclaration) => Some(TokenType::Interface),
            _ => Some(TokenType::Keyword),
        },
        NodeKind::Name => match pk {
            Some(NodeKind::Method) => Some(TokenType::Method),
            Some(NodeKind::Typedef) => Some(TokenType::Type),
            Some(NodeKind::Error) => Some(TokenType::Event),
            _ => None,
        },
        NodeKind::InterfaceName => Some(TokenType::Namespace),
        NodeKind::FieldName => Some(TokenType::Property),
        NodeKind::EnumMember => Some(TokenType::EnumMember),
        NodeKind::Typeref => Some(TokenType::Type),
        NodeKind::BuiltinType => Some(TokenType::Type),
        NodeKind::Arrow => Some(TokenType::Decorator),
        _ => None,
    }
}

/// The semantic class of every node that has one, in document order.
pub fn semantic_tokens_full(doc: &Document) -> (r: Vec<SemanticToken>)
    ensures
        r@ == tokens_upto(doc@, doc@.nodes.len() as int),
{
    let nodes = doc.nodes();
    let n = nodes.len();
    let mut r: Vec<SemanticToken> = Vec::new();
    let mut j: usize = 0;
    while j < n
        invariant
            nodes@ == doc@.nodes,
            n == nodes@.len(),
            j <= n,
            r@ == tokens_upto(doc@, j as int),
        decreases n - j,
    {
        if let Some(t) = token_at(doc, j) {
            r.push(SemanticToken { span: nodes[j].span, token_type: t });
        }
        j = j + 1;
    }
    r
}

} // verus!
