//! The template grammar: tokens, diagnostics, and the recursive-descent
//! parser that builds the abstract syntax tree.
//!
//! ```text
//! Nodes      := Node*
//! Node       := '+' Value [';']  |  Element
//! Element    := Name (Class | Id)* Attrs? Children? [';']
//! Class      := '.' Name
//! Id         := '#' Name
//! Attrs      := '(' (Attribute (',' Attribute)*)? ')'
//! Attribute  := Name ['=' Value]  |  'dyn' Value ['=' Value]
//! Children   := '{' Nodes '}'
//! Name       := Ident ('-' Ident)*
//! ```

use vstd::prelude::*;

use crate::HtmlString;
use crate::NoSpecial;

mod element;
pub use element::classes_shape;
pub use element::element_parse_err;
pub use element::element_parse_ok;
pub use element::id_shape;
pub use element::lemma_nodes_match_bounds;
pub use element::lemma_nodes_match_push;
pub use element::lemma_node_matches_token;
pub use element::lemma_spec_element_head_bounds;
pub use element::nodes_stop;
pub use element::lemma_spec_markers;
pub use element::node_matches;
pub use element::nodes_match;
pub use element::spec_element_head;
pub use element::spec_markers;
pub use element::HeadShape;
pub use element::HtmlElement;

mod attr;
pub use attr::attr_shape;
pub use attr::lemma_spec_attr_list;
pub use attr::lemma_spec_attribute;
pub use attr::parse_attr_list;
pub use attr::spec_attr_list;
pub use attr::spec_attribute;
pub use attr::spec_dyn_attr;
pub use attr::spec_static_attr;
pub use attr::AttrShape;
pub use attr::Attribute;
pub use attr::DynAttribute;
pub use attr::StaticAttribute;

mod id_class;
pub use id_class::DotClass;
pub use id_class::HashId;

mod name;
pub use name::is_ident;
pub use name::is_ident_char;
pub use name::lemma_spec_name;
pub use name::lemma_spec_name_rest;
pub use name::lemma_valid_name_no_special;
pub use name::spec_name;
pub use name::spec_name_rest;
pub use name::valid_ident;
pub use name::valid_name;
pub use name::Hyphenated;

verus! {

/// A half-open range of token indices, for diagnostics.
#[derive(Clone, Copy, PartialEq, Eq, Structural)]
pub struct Span {
    pub lo: usize,
    pub hi: usize,
}

/// A value embedded in a template, supplied by the caller where the
/// grammar allows an expression.
pub enum Value {
    /// Plain text, escaped wherever it is rendered.
    Text(String),
    /// Already-rendered markup, written verbatim in node position.
    Rendered(HtmlString),
    /// Text guaranteed free of special characters, written verbatim.
    NoSpec(NoSpecial),
    /// A presence-only attribute value: the attribute appears iff `true`.
    Bool(bool),
    /// An optional attribute value: the attribute appears iff present.
    OptText(Option<String>),
}

impl Value {
    /// Values that carry a pre-validation promise really meet it.
    pub open spec fn wf(&self) -> bool {
        match self {
            Value::NoSpec(ns) => ns.wf(),
            _ => true,
        }
    }

    /// An exact copy of the value.
    pub fn dup(&self) -> (r: Value)
        ensures
            r == *self,
    {
        match self {
            Value::Text(s) => Value::Text(s.clone()),
            Value::Rendered(h) => Value::Rendered(HtmlString(h.0.clone())),
            Value::NoSpec(ns) => Value::NoSpec(NoSpecial(ns.0.clone())),
            Value::Bool(b) => Value::Bool(*b),
            Value::OptText(o) => Value::OptText(
                match o {
                    Some(s) => Some(s.clone()),
                    None => None,
                },
            ),
        }
    }
}

/// One token of template source.
pub enum Token {
    /// An identifier segment.
    Ident(String),
    /// `-` between identifier segments of one name.
    Hyphen,
    /// `.` introducing a class marker.
    Dot,
    /// `#` introducing the id marker.
    Hash,
    /// `+` introducing an embedded value node.
    Plus,
    /// `;` terminating a node.
    Semi,
    /// `,` separating attributes.
    Comma,
    /// `=` between an attribute name and its value.
    Eq,
    /// The `dyn` keyword introducing a dynamic attribute.
    DynKw,
    /// `(` opening an attribute list.
    OpenParen,
    /// `)` closing an attribute list.
    CloseParen,
    /// `{` opening a child block.
    OpenBrace,
    /// `}` closing a child block.
    CloseBrace,
    /// An embedded value.
    Value(Value),
}

/// What went wrong, without its surrounding context.
#[derive(Clone, Copy, Debug, PartialEq, Eq, Structural)]
pub enum ErrorKind {
    /// An identifier was required at this position.
    ExpectedIdent,
    /// A token that no grammar rule allows here.
    UnexpectedToken,
    /// The source ended inside an unterminated structure.
    UnexpectedEnd,
    /// A second id marker on one element.
    DuplicateId,
    /// Two attributes of one element share a name, counting the
    /// synthesized `id` and `class` attributes.
    DuplicateAttribute,
    /// The embedded value cannot be rendered as a node.
    BadNodeValue,
    /// The embedded value cannot be rendered as an attribute value.
    BadAttrValue,
    /// A dynamic attribute's name is not plain text free of special
    /// characters.
    BadDynName,
}

/// The grammar rule that was being parsed when an error surfaced,
/// innermost first.
#[derive(Clone, Copy, Debug, PartialEq, Eq, Structural)]
pub enum Ctx {
    /// Parsing the whole template input.
    Input,
    /// Parsing a node in a node list.
    NodeList,
    /// Parsing an element node.
    ElementNode,
    /// Parsing an embedded value node.
    ArbitraryExpr,
    /// Parsing an element name.
    ElementName,
    /// Parsing an element id.
    ElementId,
    /// Parsing an element attribute.
    ElementAttr,
    /// Parsing the children of an element.
    InnerNodes,
}

/// A compile-time diagnostic: where, what, and the chain of grammar rules
/// being parsed, most specific first.
#[derive(Debug)]
pub struct CompileError {
    /// The token index the error points at.
    pub pos: usize,
    /// What went wrong.
    pub kind: ErrorKind,
    /// Context labels, innermost first.
    pub context: Vec<Ctx>,
}

impl CompileError {
    /// A fresh error with no context.
    pub fn new(pos: usize, kind: ErrorKind) -> (r: CompileError)
        ensures
            r.pos == pos,
            r.kind == kind,
            r.context@ =~= Seq::<Ctx>::empty(),
    {
        CompileError { pos, kind, context: Vec::new() }
    }

    /// Wraps the error with one more context label, outermost last.
    pub fn ctx(self, c: Ctx) -> (r: CompileError)
        ensures
            r.pos == self.pos,
            r.kind == self.kind,
            r.context@ == self.context@.push(c),
    {
        let CompileError { pos, kind, mut context } = self;
        context.push(c);
        CompileError { pos, kind, context }
    }
}

/// The text of an identifier token, or nothing.
pub open spec fn ident_text(tok: Token) -> Seq<char> {
    match tok {
        Token::Ident(s) => s@,
        _ => Seq::empty(),
    }
}

/// Position `i` holds a valid identifier token.
pub open spec fn ident_at(t: Seq<Token>, i: int) -> bool {
    0 <= i < t.len() && t[i] is Ident && valid_ident(ident_text(t[i]))
}

/// The value a value token carries; meaningful only under a
/// `t[i] is Value` guard.
pub open spec fn value_of(tok: Token) -> Value {
    match tok {
        Token::Value(v) => v,
        _ => Value::Bool(false),
    }
}

/// The error kind for a missing construct at `p`: the end of the input
/// was reached, or a token no rule allows stands there.
pub open spec fn end_or_tok(t: Seq<Token>, p: int) -> ErrorKind {
    if p >= t.len() {
        ErrorKind::UnexpectedEnd
    } else {
        ErrorKind::UnexpectedToken
    }
}

/// A sequence of nodes, as a template or a child block holds them.
pub struct HtmlNodes {
    /// The nodes, in source order.
    pub nodes: Vec<HtmlNode>,
    /// The tokens the sequence covered.
    pub span: Span,
}

/// One node: an embedded value, or an element.
pub enum HtmlNode {
    /// An embedded value, introduced by `+`.
    Arbitrary(Value, Span),
    /// An element.
    Element(HtmlElement),
}

impl HtmlNodes {
    /// Every name in every node is a valid hyphenated name.
    pub open spec fn wf(&self) -> bool
        decreases *self,
    {
        forall|i: int| 0 <= i < self.nodes@.len() ==> (#[trigger] self.nodes@[i]).wf()
    }

    /// Where the node sequence stood.
    pub fn span(&self) -> (r: Span)
        ensures
            r == self.span,
    {
        self.span
    }
}

impl HtmlNode {
    /// Every name in the node is a valid hyphenated name.
    pub open spec fn wf(&self) -> bool
        decreases *self,
    {
        match self {
            HtmlNode::Arbitrary(_, _) => true,
            HtmlNode::Element(el) => el.wf(),
        }
    }

    /// Where the node stood.
    pub fn span(&self) -> (r: Span)
        ensures
            r == self.spec_span(),
    {
        match self {
            HtmlNode::Arbitrary(_, sp) => *sp,
            HtmlNode::Element(el) => el.span,
        }
    }

    /// Where the node stood.
    pub open spec fn spec_span(&self) -> Span {
        match self {
            HtmlNode::Arbitrary(_, sp) => *sp,
            HtmlNode::Element(el) => el.span,
        }
    }
}

/// What parsing `+ value [';']` at `i` yields: the embedded value and
/// the position after it.
pub open spec fn spec_arbitrary(t: Seq<Token>, i: int) -> Result<(Value, int), (int, ErrorKind)> {
    if !(0 <= i < t.len() && t[i] is Plus) {
        Err((i, ErrorKind::UnexpectedToken))
    } else if i + 1 < t.len() && t[i + 1] is Value {
        if i + 2 < t.len() && t[i + 2] is Semi {
            Ok((value_of(t[i + 1]), i + 3))
        } else {
            Ok((value_of(t[i + 1]), i + 2))
        }
    } else {
        Err((i + 1, end_or_tok(t, i + 1)))
    }
}

/// The error a failing node parse at `j` yields, position and kind: an
/// embedded-value error if a `+` stands there, an element error
/// otherwise.
pub open spec fn node_err(t: Seq<Token>, j: int, err: CompileError) -> bool {
    if 0 <= j < t.len() && t[j] is Plus {
        spec_arbitrary(t, j) matches Err((p, k)) && err.pos == p && err.kind == k
    } else {
        element_parse_err(t, j, err)
    }
}

impl HtmlNode {
    /// Parses one node starting at `pos`: an embedded value if a `+`
    /// stands there, an element otherwise.
    pub fn parse(tokens: &Vec<Token>, pos: usize) -> (r: Result<(HtmlNode, usize), CompileError>)
        requires
            pos <= tokens@.len(),
        ensures
            (r matches Ok((n, end)) ==> node_matches(tokens@, pos as int, n, end as int)),
            (r matches Err(err) ==> pos <= err.pos <= tokens@.len()),
            (exists|n0: HtmlNode, e0: int| #[trigger] node_matches(tokens@, pos as int, n0, e0))
                ==> r is Ok,
            match r {
                Ok((n, end)) => pos < end <= tokens@.len() && n.wf() && if (pos as int)
                    < tokens@.len() && tokens@[pos as int] is Plus {
                    n matches HtmlNode::Arbitrary(v, sp) && spec_arbitrary(tokens@, pos as int)
                        == Ok::<_, (int, ErrorKind)>((v, end as int)) && sp == (Span {
                        lo: pos,
                        hi: end,
                    })
                } else {
                    n matches HtmlNode::Element(el) && element_parse_ok(
                        tokens@,
                        pos as int,
                        el,
                        end as int,
                    )
                },
                Err(err) => if (pos as int) < tokens@.len() && tokens@[pos as int] is Plus {
                    (spec_arbitrary(tokens@, pos as int) matches Err((p, k)) && err.pos == p
                        && err.kind == k) && err.context@ =~= seq![Ctx::ArbitraryExpr]
                } else {
                    element_parse_err(tokens@, pos as int, err) && err.context@.len() >= 1
                        && err.context@.last() == Ctx::ElementNode
                },
            },
        decreases tokens@.len() - pos, 1int,
    {
        let ghost t = tokens@;
        let is_plus = pos < tokens.len() && (match &tokens[pos] {
            Token::Plus => true,
            _ => false,
        });
        if is_plus {
            if pos + 1 < tokens.len() {
                match &tokens[pos + 1] {
                    Token::Value(v) => {
                        let has_semi = pos + 2 < tokens.len() && (match &tokens[pos + 2] {
                            Token::Semi => true,
                            _ => false,
                        });
                        let end = if has_semi {
                            pos + 3
                        } else {
                            pos + 2
                        };
                        Ok((HtmlNode::Arbitrary(v.dup(), Span { lo: pos, hi: end }), end))
                    },
                    _ => {
                        proof {
                            if exists|n0: HtmlNode, e0: int|
                                #[trigger] node_matches(t, pos as int, n0, e0) {
                                let (n0, e0) = choose|n0: HtmlNode, e0: int|
                                    #[trigger] node_matches(t, pos as int, n0, e0);
                                assert(false);
                            }
                        }
                        Err(
                            CompileError::new(pos + 1, ErrorKind::UnexpectedToken).ctx(
                                Ctx::ArbitraryExpr,
                            ),
                        )
                    },
                }
            } else {
                proof {
                    if exists|n0: HtmlNode, e0: int|
                        #[trigger] node_matches(t, pos as int, n0, e0) {
                        let (n0, e0) = choose|n0: HtmlNode, e0: int|
                            #[trigger] node_matches(t, pos as int, n0, e0);
                        assert(false);
                    }
                }
                Err(CompileError::new(pos + 1, ErrorKind::UnexpectedEnd).ctx(Ctx::ArbitraryExpr))
            }
        } else {
            match HtmlElement::parse(tokens, pos) {
                Ok((el, end)) => Ok((HtmlNode::Element(el), end)),
                Err(err) => {
                    proof {
                        if exists|n0: HtmlNode, e0: int|
                            #[trigger] node_matches(t, pos as int, n0, e0) {
                            let (n0, e0) = choose|n0: HtmlNode, e0: int|
                                #[trigger] node_matches(t, pos as int, n0, e0);
                            match n0 {
                                HtmlNode::Arbitrary(v0, sp0) => {},
                                HtmlNode::Element(el0) => {
                                    assert(element_parse_ok(t, pos as int, el0, e0));
                                },
                            }
                            assert(false);
                        }
                    }
                    Err(err.ctx(Ctx::ElementNode))
                },
            }
        }
    }
}

impl HtmlNodes {
    /// Parses nodes starting at `pos` until the end of the input or an
    /// unconsumed `}`.
    pub fn parse(tokens: &Vec<Token>, pos: usize) -> (r: Result<(HtmlNodes, usize), CompileError>)
        requires
            pos <= tokens@.len(),
        ensures
            (exists|ns0: Seq<HtmlNode>, e0: int|
                #[trigger] nodes_match(tokens@, pos as int, ns0, e0) && nodes_stop(tokens@, e0))
                ==> r is Ok,
            match r {
                Ok((ns, end)) => pos <= end <= tokens@.len() && ns.wf() && nodes_match(
                    tokens@,
                    pos as int,
                    ns.nodes@,
                    end as int,
                ) && (end == tokens@.len() || tokens@[end as int] is CloseBrace) && ns.span == (
                Span { lo: pos, hi: end }) && ((pos == tokens@.len()
                    || tokens@[pos as int] is CloseBrace) ==> (ns.nodes@.len() == 0 && end
                    == pos)),
                Err(err) => (pos as int) < tokens@.len() && !(tokens@[pos as int] is CloseBrace)
                    && pos <= err.pos <= tokens@.len() && err.context@.len() >= 2
                    && err.context@.last() == Ctx::NodeList && (err.context@[err.context@.len()
                    - 2] == Ctx::ArbitraryExpr || err.context@[err.context@.len() - 2]
                    == Ctx::ElementNode) && (exists|consumed: Seq<HtmlNode>, j: int|
                    #[trigger] nodes_match(tokens@, pos as int, consumed, j) && j <= err.pos
                        && !nodes_stop(tokens@, j) && node_err(tokens@, j, err)),
            },
        decreases tokens@.len() - pos, 2int,
    {
        let ghost t = tokens@;
        let mut nodes: Vec<HtmlNode> = Vec::new();
        let mut i: usize = pos;
        loop
            invariant
                pos <= i <= t.len(),
                t == tokens@,
                nodes_match(t, pos as int, nodes@, i as int),
                forall|j: int| 0 <= j < nodes@.len() ==> (#[trigger] nodes@[j]).wf(),
                (i == pos ==> nodes@.len() == 0),
                (pos == t.len() || t[pos as int] is CloseBrace) ==> (nodes@.len() == 0 && i
                    == pos),
            ensures
                pos <= i <= t.len(),
                t == tokens@,
                i == t.len() || t[i as int] is CloseBrace,
                nodes_match(t, pos as int, nodes@, i as int),
                forall|j: int| 0 <= j < nodes@.len() ==> (#[trigger] nodes@[j]).wf(),
                (pos == t.len() || t[pos as int] is CloseBrace) ==> (nodes@.len() == 0 && i
                    == pos),
            decreases t.len() - i,
        {
            if i >= tokens.len() {
                break ;
            }
            let at_close = match &tokens[i] {
                Token::CloseBrace => true,
                _ => false,
            };
            if at_close {
                break ;
            }
            let (n, e) = match HtmlNode::parse(tokens, i) {
                Ok(x) => x,
                Err(err) => {
                    proof {
                        if exists|ns0: Seq<HtmlNode>, e0: int|
                            #[trigger] nodes_match(t, pos as int, ns0, e0) && nodes_stop(t, e0) {
                            let (ns0, e0) = choose|ns0: Seq<HtmlNode>, e0: int|
                                #[trigger] nodes_match(t, pos as int, ns0, e0) && nodes_stop(
                                    t,
                                    e0,
                                );
                            crate::laws::lemma_nodes_match_next(
                                t,
                                pos as int,
                                nodes@,
                                i as int,
                                ns0,
                                e0,
                            );
                            assert(false);
                        }
                    }
                    let wrapped = err.ctx(Ctx::NodeList);
                    proof {
                        assert(node_err(t, i as int, wrapped));
                        assert(nodes_match(t, pos as int, nodes@, i as int) && i <= wrapped.pos
                            && !nodes_stop(t, i as int) && node_err(t, i as int, wrapped));
                    }
                    return Err(wrapped);
                },
            };
            proof {
                lemma_nodes_match_push(t, pos as int, nodes@, i as int, n, e as int);
            }
            nodes.push(n);
            i = e;
        }
        Ok((HtmlNodes { nodes, span: Span { lo: pos, hi: i } }, i))
    }
}

} // verus!
