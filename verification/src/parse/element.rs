//! Elements: a name, class and id markers, an optional attribute list,
//! an optional child block, and an optional trailing terminator.

use vstd::prelude::*;

use super::attr_shape;
use super::parse_attr_list;
use super::spec_attr_list;
use super::spec_name;
use super::valid_name;
use super::Attribute;
use super::AttrShape;
use super::CompileError;
use super::Ctx;
use super::DotClass;
use super::ErrorKind;
use super::HashId;
use super::HtmlNodes;
use super::Hyphenated;
use super::Span;
use super::Token;

verus! {

/// A named element with optional classes, id, attributes and children.
///
/// Absent children mean the element is emitted self-closing; present but
/// empty children mean an explicit empty body.
pub struct HtmlElement {
    /// The element name.
    pub name: Hyphenated,
    /// The class markers, in source order; duplicates allowed.
    pub classes: Vec<DotClass>,
    /// The id marker, at most one.
    pub id: Option<HashId>,
    /// The attribute list, if one was written.
    pub attributes: Option<Vec<Attribute>>,
    /// The child nodes, if a block was written.
    pub children: Option<HtmlNodes>,
    /// The whole element.
    pub span: Span,
}

impl HtmlElement {
    /// Every name in the element (and its children) is a valid
    /// hyphenated name.
    pub open spec fn wf(&self) -> bool
        decreases *self,
    {
        &&& self.name.wf()
        &&& (forall|i: int|
            0 <= i < self.classes@.len() ==> (#[trigger] self.classes@[i]).name.wf())
        &&& (match self.id {
            Some(h) => h.name.wf(),
            None => true,
        })
        &&& (match self.attributes {
            Some(av) => forall|i: int| 0 <= i < av@.len() ==> (#[trigger] av@[i]).wf(),
            None => true,
        })
        &&& (match self.children {
            Some(ns) => ns.wf(),
            None => true,
        })
    }

    /// Where the whole element stood.
    pub fn span(&self) -> (r: Span)
        ensures
            r == self.span,
    {
        self.span
    }
}

/// The class names of a marker list, in order.
pub open spec fn classes_shape(cs: Seq<DotClass>) -> Seq<Seq<char>> {
    cs.map_values(|c: DotClass| c.name.name@)
}

/// The id name and the position of its `#` marker, if an id was given.
pub open spec fn id_shape(id: Option<HashId>) -> Option<(Seq<char>, int)> {
    match id {
        Some(h) => Some((h.name.name@, h.span.lo as int)),
        None => None,
    }
}

/// What scanning the marker section (`.name` and `#name`, repeated) at
/// `i` yields, given the markers already seen: the class names in order,
/// the id (with its marker position), and the position of the first
/// token after the markers. A second id marker is an error at its `#`;
/// a token that neither continues the markers nor may follow them is an
/// error at its position.
pub open spec fn spec_markers(
    t: Seq<Token>,
    i: int,
    id: Option<(Seq<char>, int)>,
    classes: Seq<Seq<char>>,
) -> Result<(Seq<Seq<char>>, Option<(Seq<char>, int)>, int), (int, ErrorKind)>
    decreases t.len() - i,
    when 0 <= i <= t.len()
    via spec_markers_dec
{
    if i < t.len() && t[i] is Dot {
        match spec_name(t, i + 1) {
            Ok((n, e)) => spec_markers(t, e, id, classes.push(n)),
            Err(p) => Err((p, ErrorKind::ExpectedIdent)),
        }
    } else if i < t.len() && t[i] is Hash {
        if id is Some {
            Err((i, ErrorKind::DuplicateId))
        } else {
            match spec_name(t, i + 1) {
                Ok((n, e)) => spec_markers(t, e, Some((n, i)), classes),
                Err(p) => Err((p, ErrorKind::ExpectedIdent)),
            }
        }
    } else if i >= t.len() || t[i] is OpenParen || t[i] is OpenBrace || t[i] is Semi {
        Ok((classes, id, i))
    } else {
        Err((i, ErrorKind::UnexpectedToken))
    }
}

#[via_fn]
proof fn spec_markers_dec(
    t: Seq<Token>,
    i: int,
    id: Option<(Seq<char>, int)>,
    classes: Seq<Seq<char>>,
) {
    if i < t.len() && (t[i] is Dot || t[i] is Hash) {
        super::lemma_spec_name(t, i + 1);
    }
}

/// Bounds and name validity for `spec_markers`.
pub proof fn lemma_spec_markers(
    t: Seq<Token>,
    i: int,
    id: Option<(Seq<char>, int)>,
    classes: Seq<Seq<char>>,
)
    requires
        0 <= i <= t.len(),
    ensures
        match spec_markers(t, i, id, classes) {
            Ok((cs, idr, e)) => i <= e <= t.len() && (e == t.len() || t[e] is OpenParen
                || t[e] is OpenBrace || t[e] is Semi) && classes.len() <= cs.len() && (forall|
                j: int,
            | 0 <= j < classes.len() ==> #[trigger] cs[j] == classes[j]) && (forall|j: int|
                classes.len() <= j < cs.len() ==> valid_name(#[trigger] cs[j])) && (match idr {
                Some((n, p)) => idr == id || (id is None && valid_name(n) && i <= p < t.len()),
                None => id is None,
            }),
            Err((p, k)) => i <= p <= t.len(),
        },
    decreases t.len() - i,
{
    if i < t.len() && t[i] is Dot {
        super::lemma_spec_name(t, i + 1);
        match spec_name(t, i + 1) {
            Ok((n, e)) => {
                lemma_spec_markers(t, e, id, classes.push(n));
            },
            Err(p) => {},
        }
    } else if i < t.len() && t[i] is Hash && !(id is Some) {
        super::lemma_spec_name(t, i + 1);
        match spec_name(t, i + 1) {
            Ok((n, e)) => {
                lemma_spec_markers(t, e, Some((n, i)), classes);
            },
            Err(p) => {},
        }
    }
}

/// Everything about an element except its children: name, classes, id,
/// attributes.
pub struct HeadShape {
    /// The element name.
    pub name: Seq<char>,
    /// The class marker names, in order.
    pub classes: Seq<Seq<char>>,
    /// The id name and its marker position, if an id marker was given.
    pub id: Option<(Seq<char>, int)>,
    /// The attribute list, if one was written.
    pub attrs: Option<Seq<AttrShape>>,
}

/// What parsing an element's head (everything before the children) at
/// `i` yields: the head and the position after it.
pub open spec fn spec_element_head(t: Seq<Token>, i: int) -> Result<
    (HeadShape, int),
    (int, ErrorKind),
> {
    match spec_name(t, i) {
        Err(p) => Err((p, ErrorKind::ExpectedIdent)),
        Ok((n, j)) => match spec_markers(t, j, None, Seq::empty()) {
            Err(e) => Err(e),
            Ok((cs, idr, k)) => if k < t.len() && t[k] is OpenParen {
                match spec_attr_list(t, k + 1, Seq::empty()) {
                    Err(e) => Err(e),
                    Ok((shapes, m)) => Ok(
                        (HeadShape { name: n, classes: cs, id: idr, attrs: Some(shapes) }, m),
                    ),
                }
            } else {
                Ok((HeadShape { name: n, classes: cs, id: idr, attrs: None }, k))
            },
        },
    }
}

/// The clauses a successfully parsed element meets: its fields match the
/// head that the grammar gives at `i`; its children block is present
/// exactly when a `{` followed the head, holds nodes that match the
/// tokens up to the closing `}`, and its span covers what was consumed,
/// an optional trailing `;` included.
pub open spec fn element_parse_ok(t: Seq<Token>, i: int, el: HtmlElement, end: int) -> bool
    decreases el,
    via element_parse_ok_dec
{
    spec_element_head(t, i) matches Ok((h, m)) && {
        &&& el.name.name@ == h.name
        &&& classes_shape(el.classes@) == h.classes
        &&& id_shape(el.id) == h.id
        &&& (match (el.attributes, h.attrs) {
            (Some(av), Some(shapes)) => av@.map_values(|a: Attribute| attr_shape(a)) == shapes,
            (None, None) => true,
            _ => false,
        })
        &&& (el.children is Some <==> (m < t.len() && t[m] is OpenBrace))
        &&& (match el.children {
            None => end == (if m < t.len() && t[m] is Semi {
                m + 1
            } else {
                m
            }),
            Some(ns) => {
                let ce = ns.span.hi as int;
                &&& ns.span.lo == m + 1
                &&& nodes_match(t, m + 1, ns.nodes@, ce)
                &&& ce < t.len() && t[ce] is CloseBrace
                &&& end == (if ce + 1 < t.len() && t[ce + 1] is Semi {
                    ce + 2
                } else {
                    ce + 1
                })
            },
        })
        &&& el.span.lo == i
        &&& el.span.hi == end
    }
}

/// One parsed node matches the tokens from `i` to `end`.
pub open spec fn node_matches(t: Seq<Token>, i: int, n: super::HtmlNode, end: int) -> bool
    decreases n,
    via node_matches_dec
{
    match n {
        super::HtmlNode::Arbitrary(v, sp) => super::spec_arbitrary(t, i) == Ok::<
            _,
            (int, ErrorKind),
        >((v, end)) && sp.lo == i && sp.hi == end,
        super::HtmlNode::Element(el) => element_parse_ok(t, i, el, end),
    }
}

/// A parsed node sequence matches the tokens from `i` to `end`, node by
/// node, each node's span handing the position to the next.
pub open spec fn nodes_match(t: Seq<Token>, i: int, nodes: Seq<super::HtmlNode>, end: int) -> bool
    decreases nodes,
    via nodes_match_dec
{
    if nodes.len() == 0 {
        end == i
    } else {
        let j = nodes[0].spec_span().hi as int;
        node_matches(t, i, nodes[0], j) && nodes_match(t, j, nodes.drop_first(), end)
    }
}

#[via_fn]
proof fn element_parse_ok_dec(t: Seq<Token>, i: int, el: HtmlElement, end: int) {
    broadcast use vstd::std_specs::vec::group_vec_axioms;
    broadcast use vstd::seq::group_seq_axioms;

    if el.children is Some {
        let ns = el.children->0;
        assert(decreases_to!(el => el.children));
        assert(decreases_to!(el.children => el.children->0));
        assert(decreases_to!(ns => ns.nodes));
        assert(decreases_to!(ns.nodes => ns.nodes@));
    }
}

#[via_fn]
proof fn node_matches_dec(t: Seq<Token>, i: int, n: super::HtmlNode, end: int) {
    if n is Element {
        assert(decreases_to!(n => n->Element_0));
    }
}

#[via_fn]
proof fn nodes_match_dec(t: Seq<Token>, i: int, nodes: Seq<super::HtmlNode>, end: int) {
    broadcast use vstd::seq::group_seq_axioms;

    if nodes.len() > 0 {
        assert(decreases_to!(nodes => nodes[0]));
        assert(nodes.drop_first().len() < nodes.len());
        assert(decreases_to!(nodes => nodes.drop_first()));
    }
}

/// A position where a node list may stop: the end of the input, or an
/// unconsumed `}`.
pub open spec fn nodes_stop(t: Seq<Token>, e: int) -> bool {
    e == t.len() || (0 <= e < t.len() && t[e] is CloseBrace)
}

/// Bounds of a successful element head: it consumed at least one token
/// and stayed within the input.
pub proof fn lemma_spec_element_head_bounds(t: Seq<Token>, i: int)
    requires
        0 <= i <= t.len(),
    ensures
        spec_element_head(t, i) matches Ok((h, m)) ==> i < m <= t.len(),
{
    super::lemma_spec_name(t, i);
    match spec_name(t, i) {
        Err(_) => {},
        Ok((n, j)) => {
            lemma_spec_markers(t, j, None, Seq::empty());
            match spec_markers(t, j, None, Seq::empty()) {
                Err(_) => {},
                Ok((cs, idr, k)) => {
                    if k < t.len() && t[k] is OpenParen {
                        super::lemma_spec_attr_list(t, k + 1, Seq::empty());
                    }
                },
            }
        },
    }
}

/// A matching node starts with a `+` or an identifier, consumes at least
/// one token, and stays within the input.
pub proof fn lemma_node_matches_token(t: Seq<Token>, i: int, n: super::HtmlNode, e: int)
    requires
        node_matches(t, i, n, e),
    ensures
        0 <= i < t.len(),
        t[i] is Plus || t[i] is Ident,
        i < e <= t.len(),
    decreases n,
{
    broadcast use vstd::std_specs::vec::group_vec_axioms;
    broadcast use vstd::seq::group_seq_axioms;

    match n {
        super::HtmlNode::Arbitrary(v, sp) => {},
        super::HtmlNode::Element(el) => {
            assert(super::ident_at(t, i));
            lemma_spec_element_head_bounds(t, i);
            let (h, m) = spec_element_head(t, i)->Ok_0;
            match el.children {
                None => {},
                Some(ns) => {
                    assert(decreases_to!(n => n->Element_0));
                    assert(decreases_to!(el => el.children));
                    assert(decreases_to!(el.children => el.children->0));
                    assert(decreases_to!(ns => ns.nodes));
                    assert(decreases_to!(ns.nodes => ns.nodes@));
                    lemma_nodes_match_bounds(t, m + 1, ns.nodes@, ns.span.hi as int);
                },
            }
        },
    }
}

/// A matching node list never runs backwards, and stays within the input
/// as soon as it holds a node.
pub proof fn lemma_nodes_match_bounds(t: Seq<Token>, i: int, nodes: Seq<super::HtmlNode>, e: int)
    requires
        nodes_match(t, i, nodes, e),
    ensures
        i <= e,
        nodes.len() > 0 ==> i < e && e <= t.len(),
    decreases nodes,
{
    broadcast use vstd::seq::group_seq_axioms;

    if nodes.len() > 0 {
        let j = nodes[0].spec_span().hi as int;
        assert(decreases_to!(nodes => nodes[0]));
        lemma_node_matches_token(t, i, nodes[0], j);
        assert(decreases_to!(nodes => nodes.drop_first()));
        assert(nodes_match(t, j, nodes.drop_first(), e));
        lemma_nodes_match_bounds(t, j, nodes.drop_first(), e);
        if nodes.drop_first().len() == 0 {
            assert(e == j);
        }
    }
}

/// Appending a node that matches the next token range extends a match.
pub proof fn lemma_nodes_match_push(
    t: Seq<Token>,
    i: int,
    nodes: Seq<super::HtmlNode>,
    mid: int,
    n: super::HtmlNode,
    end: int,
)
    requires
        nodes_match(t, i, nodes, mid),
        node_matches(t, mid, n, end),
    ensures
        nodes_match(t, i, nodes.push(n), end),
    decreases nodes.len(),
{
    assert(n.spec_span().hi == end) by {
        match n {
            super::HtmlNode::Arbitrary(v, sp) => {},
            super::HtmlNode::Element(el) => {
                assert(element_parse_ok(t, mid, el, end));
            },
        }
    }
    if nodes.len() == 0 {
        assert(mid == i);
        assert(nodes.push(n)[0] == n);
        assert(nodes.push(n).drop_first() =~= nodes);
        assert(node_matches(t, i, n, n.spec_span().hi as int));
        assert(nodes_match(t, n.spec_span().hi as int, nodes.push(n).drop_first(), end));
    } else {
        assert(nodes.push(n)[0] == nodes[0]);
        assert(nodes.push(n).drop_first() =~= nodes.drop_first().push(n));
        lemma_nodes_match_push(
            t,
            nodes[0].spec_span().hi as int,
            nodes.drop_first(),
            mid,
            n,
            end,
        );
        assert(node_matches(t, i, nodes.push(n)[0], nodes.push(n)[0].spec_span().hi as int));
        assert(nodes_match(
            t,
            nodes.push(n)[0].spec_span().hi as int,
            nodes.push(n).drop_first(),
            end,
        ));
    }
}

/// The clauses a failed element parse meets: the error is the one the
/// grammar gives for the head; or the head parsed, a `{` followed, and
/// the error arose inside the child block — at a node that begins after
/// a matching prefix of the children, or at the end of the input when
/// the block never closes.
pub open spec fn element_parse_err(t: Seq<Token>, i: int, err: CompileError) -> bool {
    match spec_element_head(t, i) {
        Err((p, k)) => err.pos == p && err.kind == k,
        Ok((h, m)) => m < t.len() && t[m] is OpenBrace && {
            ||| (exists|consumed: Seq<super::HtmlNode>, j: int|
                #[trigger] nodes_match(t, m + 1, consumed, j) && j <= err.pos && !nodes_stop(t, j))
            ||| (exists|consumed: Seq<super::HtmlNode>|
                #[trigger] nodes_match(t, m + 1, consumed, t.len() as int) && err.pos == t.len()
                    && err.kind == ErrorKind::UnexpectedEnd)
        },
    }
}

impl HtmlElement {
    /// Parses one element starting at `pos`.
    pub fn parse(tokens: &Vec<Token>, pos: usize) -> (r: Result<(HtmlElement, usize), CompileError>)
        requires
            pos <= tokens@.len(),
        ensures
            match r {
                Ok((el, end)) => pos < end <= tokens@.len() && el.wf() && element_parse_ok(
                    tokens@,
                    pos as int,
                    el,
                    end as int,
                ),
                Err(err) => element_parse_err(tokens@, pos as int, err) && pos <= err.pos
                    <= tokens@.len(),
            },
            (exists|el0: HtmlElement, e0: int|
                #[trigger] element_parse_ok(tokens@, pos as int, el0, e0)) ==> r is Ok,
        decreases tokens@.len() - pos, 0int,
    {
        let ghost t = tokens@;
        proof {
            super::lemma_spec_name(t, pos as int);
        }
        let (name, after_name) = match Hyphenated::parse(tokens, pos) {
            Ok(x) => x,
            Err(e) => {
                proof {
                    if exists|el0: HtmlElement, e0: int|
                        #[trigger] element_parse_ok(t, pos as int, el0, e0) {
                        let (el0, e0) = choose|el0: HtmlElement, e0: int|
                            #[trigger] element_parse_ok(t, pos as int, el0, e0);
                        assert(false);
                    }
                }
                return Err(e.ctx(Ctx::ElementName));
            },
        };
        let mut classes: Vec<DotClass> = Vec::new();
        let mut id: Option<HashId> = None;
        let mut i: usize = after_name;
        proof {
            assert(classes_shape(classes@) =~= Seq::<Seq<char>>::empty());
        }
        loop
            invariant
                after_name <= i <= t.len(),
                t == tokens@,
                pos < after_name <= t.len(),
                spec_name(t, pos as int) == Ok::<_, int>((name.name@, after_name as int)),
                name.wf(),
                spec_markers(t, after_name as int, None, Seq::empty()) == spec_markers(
                    t,
                    i as int,
                    id_shape(id),
                    classes_shape(classes@),
                ),
                forall|j: int|
                    0 <= j < classes@.len() ==> (#[trigger] classes@[j]).name.wf(),
                (match id {
                    Some(h) => h.name.wf(),
                    None => true,
                }),
            ensures
                t == tokens@,
                after_name <= i <= t.len(),
                spec_markers(t, after_name as int, None, Seq::empty()) == Ok::<
                    _,
                    (int, ErrorKind),
                >((classes_shape(classes@), id_shape(id), i as int)),
                i == t.len() || t[i as int] is OpenParen || t[i as int] is OpenBrace
                    || t[i as int] is Semi,
                forall|j: int|
                    0 <= j < classes@.len() ==> (#[trigger] classes@[j]).name.wf(),
                (match id {
                    Some(h) => h.name.wf(),
                    None => true,
                }),
            decreases t.len() - i,
        {
            if i >= tokens.len() {
                break ;
            }
            proof {
                super::lemma_spec_name(t, i + 1);
            }
            let is_dot = match &tokens[i] {
                Token::Dot => true,
                _ => false,
            };
            let is_hash = match &tokens[i] {
                Token::Hash => true,
                _ => false,
            };
            if is_dot {
                let (dc, e) = match DotClass::parse(tokens, i) {
                    Ok(x) => x,
                    Err(err) => {
                        proof {
                            if exists|el0: HtmlElement, e0: int|
                                #[trigger] element_parse_ok(t, pos as int, el0, e0) {
                                let (el0, e0) = choose|el0: HtmlElement, e0: int|
                                    #[trigger] element_parse_ok(t, pos as int, el0, e0);
                                assert(false);
                            }
                        }
                        return Err(err);
                    },
                };
                let ghost cs0 = classes_shape(classes@);
                classes.push(dc);
                proof {
                    assert(classes_shape(classes@) =~= cs0.push(dc.name.name@));
                }
                i = e;
            } else if is_hash {
                if id.is_some() {
                    proof {
                        if exists|el0: HtmlElement, e0: int|
                            #[trigger] element_parse_ok(t, pos as int, el0, e0) {
                            let (el0, e0) = choose|el0: HtmlElement, e0: int|
                                #[trigger] element_parse_ok(t, pos as int, el0, e0);
                            assert(false);
                        }
                    }
                    return Err(CompileError::new(i, ErrorKind::DuplicateId));
                }
                let (hid, e) = match HashId::parse(tokens, i) {
                    Ok(x) => x,
                    Err(err) => {
                        proof {
                            if exists|el0: HtmlElement, e0: int|
                                #[trigger] element_parse_ok(t, pos as int, el0, e0) {
                                let (el0, e0) = choose|el0: HtmlElement, e0: int|
                                    #[trigger] element_parse_ok(t, pos as int, el0, e0);
                                assert(false);
                            }
                        }
                        return Err(err.ctx(Ctx::ElementId));
                    },
                };
                id = Some(hid);
                i = e;
            } else {
                let stop = match &tokens[i] {
                    Token::OpenParen => true,
                    Token::OpenBrace => true,
                    Token::Semi => true,
                    _ => false,
                };
                if stop {
                    break ;
                } else {
                    proof {
                        if exists|el0: HtmlElement, e0: int|
                            #[trigger] element_parse_ok(t, pos as int, el0, e0) {
                            let (el0, e0) = choose|el0: HtmlElement, e0: int|
                                #[trigger] element_parse_ok(t, pos as int, el0, e0);
                            assert(false);
                        }
                    }
                    return Err(CompileError::new(i, ErrorKind::UnexpectedToken));
                }
            }
        }
        let attributes: Option<Vec<Attribute>>;
        if i < tokens.len() && (match &tokens[i] {
            Token::OpenParen => true,
            _ => false,
        }) {
            proof {
                super::lemma_spec_attr_list(t, i + 1, Seq::empty());
            }
            match parse_attr_list(tokens, i + 1) {
                Ok((av, e)) => {
                    attributes = Some(av);
                    i = e;
                },
                Err(err) => {
                    proof {
                        if exists|el0: HtmlElement, e0: int|
                            #[trigger] element_parse_ok(t, pos as int, el0, e0) {
                            let (el0, e0) = choose|el0: HtmlElement, e0: int|
                                #[trigger] element_parse_ok(t, pos as int, el0, e0);
                            assert(false);
                        }
                    }
                    return Err(err.ctx(Ctx::ElementAttr));
                },
            }
        } else {
            attributes = None;
        }
        let children: Option<HtmlNodes>;
        if i < tokens.len() && (match &tokens[i] {
            Token::OpenBrace => true,
            _ => false,
        }) {
            match HtmlNodes::parse(tokens, i + 1) {
                Ok((ns, e)) => {
                    if e < tokens.len() {
                        children = Some(ns);
                        i = e + 1;
                    } else {
                        proof {
                            assert(nodes_match(t, i + 1, ns.nodes@, t.len() as int));
                            if exists|el0: HtmlElement, e0: int|
                                #[trigger] element_parse_ok(t, pos as int, el0, e0) {
                                let (el0, e0) = choose|el0: HtmlElement, e0: int|
                                    #[trigger] element_parse_ok(t, pos as int, el0, e0);
                                let ns0 = el0.children->0;
                                crate::laws::lemma_nodes_match_agree(
                                    t,
                                    i + 1,
                                    ns.nodes@,
                                    t.len() as int,
                                    ns0.nodes@,
                                    ns0.span.hi as int,
                                );
                                assert(false);
                            }
                        }
                        return Err(CompileError::new(e, ErrorKind::UnexpectedEnd));
                    }
                },
                Err(err) => {
                    proof {
                        if exists|el0: HtmlElement, e0: int|
                            #[trigger] element_parse_ok(t, pos as int, el0, e0) {
                            let (el0, e0) = choose|el0: HtmlElement, e0: int|
                                #[trigger] element_parse_ok(t, pos as int, el0, e0);
                            let ns0 = el0.children->0;
                            assert(nodes_match(t, i + 1, ns0.nodes@, ns0.span.hi as int)
                                && nodes_stop(t, ns0.span.hi as int));
                            assert(false);
                        }
                    }
                    return Err(err.ctx(Ctx::InnerNodes));
                },
            }
        } else {
            children = None;
        }
        if i < tokens.len() && (match &tokens[i] {
            Token::Semi => true,
            _ => false,
        }) {
            i = i + 1;
        }
        Ok((
            HtmlElement { name, classes, id, attributes, children, span: Span { lo: pos, hi: i } },
            i,
        ))
    }
}

} // verus!
