//! Attributes: static (`name` or `name = value`) and dynamic
//! (`dyn name-value [= value]`), as they appear inside an attribute list.

use vstd::prelude::*;

use super::end_or_tok;
use super::spec_name;
use super::valid_name;
use super::value_of;
use super::CompileError;
use super::Ctx;
use super::ErrorKind;
use super::Hyphenated;
use super::Span;
use super::Token;
use super::Value;

verus! {

/// An attribute whose name is known at compile time.
pub struct StaticAttribute {
    /// The attribute name.
    pub name: Hyphenated,
    /// The attribute value; absent means presence-only (true).
    pub value: Option<Value>,
    /// The whole attribute.
    pub span: Span,
}

impl StaticAttribute {
    /// The attribute name is a valid hyphenated name.
    pub open spec fn wf(&self) -> bool {
        self.name.wf()
    }

    /// Where the whole attribute stood.
    pub fn span(&self) -> (r: Span)
        ensures
            r == self.span,
    {
        self.span
    }
}

/// An attribute whose name is only known at render time.
pub struct DynAttribute {
    /// The value producing the attribute name.
    pub name: Value,
    /// The attribute value; absent means presence-only (true).
    pub value: Option<Value>,
    /// The whole attribute, `dyn` included.
    pub span: Span,
}

impl DynAttribute {
    /// Where the whole attribute stood.
    pub fn span(&self) -> (r: Span)
        ensures
            r == self.span,
    {
        self.span
    }
}

/// One attribute of an element.
pub enum Attribute {
    /// An attribute with a compile-time name.
    Static(StaticAttribute),
    /// An attribute with a render-time name.
    Dyn(DynAttribute),
}

impl Attribute {
    /// Compile-time names are valid hyphenated names.
    pub open spec fn wf(&self) -> bool {
        match self {
            Attribute::Static(a) => a.wf(),
            Attribute::Dyn(_) => true,
        }
    }

    /// Where the whole attribute stood.
    pub fn span(&self) -> (r: Span)
        ensures
            r == self.spec_span(),
    {
        match self {
            Attribute::Static(a) => a.span,
            Attribute::Dyn(a) => a.span,
        }
    }

    /// Where the whole attribute stood.
    pub open spec fn spec_span(&self) -> Span {
        match self {
            Attribute::Static(a) => a.span,
            Attribute::Dyn(a) => a.span,
        }
    }
}

/// What parsing `name [= value]` at `i` yields: name text, optional
/// value, and the position after the attribute.
pub open spec fn spec_static_attr(t: Seq<Token>, i: int) -> Result<
    (Seq<char>, Option<Value>, int),
    (int, ErrorKind),
> {
    match spec_name(t, i) {
        Err(p) => Err((p, ErrorKind::ExpectedIdent)),
        Ok((n, e)) => if e < t.len() && t[e] is Eq {
            if e + 1 < t.len() && t[e + 1] is Value {
                Ok((n, Some(value_of(t[e + 1])), e + 2))
            } else {
                Err((e + 1, end_or_tok(t, e + 1)))
            }
        } else {
            Ok((n, None, e))
        },
    }
}

/// What parsing `dyn value [= value]` at `i` yields: name value,
/// optional value, and the position after the attribute.
pub open spec fn spec_dyn_attr(t: Seq<Token>, i: int) -> Result<
    (Value, Option<Value>, int),
    (int, ErrorKind),
> {
    if !(0 <= i < t.len() && t[i] is DynKw) {
        Err((i, ErrorKind::UnexpectedToken))
    } else if i + 1 < t.len() && t[i + 1] is Value {
        if i + 2 < t.len() && t[i + 2] is Eq {
            if i + 3 < t.len() && t[i + 3] is Value {
                Ok((value_of(t[i + 1]), Some(value_of(t[i + 3])), i + 4))
            } else {
                Err((i + 3, end_or_tok(t, i + 3)))
            }
        } else {
            Ok((value_of(t[i + 1]), None, i + 2))
        }
    } else {
        Err((i + 1, end_or_tok(t, i + 1)))
    }
}

/// The compile-relevant content of one parsed attribute: which kind it
/// is, its name (text for static, value for dynamic), its value, and the
/// token range it covered.
pub struct AttrShape {
    /// Whether the attribute is dynamic.
    pub is_dyn: bool,
    /// The static name text; empty for a dynamic attribute.
    pub name_text: Seq<char>,
    /// The dynamic name value; a placeholder for a static attribute.
    pub name_val: Value,
    /// The attribute value, if one was given.
    pub value: Option<Value>,
    /// First token of the attribute.
    pub lo: int,
    /// First token after the attribute.
    pub hi: int,
}

/// The compile-relevant content of a parsed attribute.
pub open spec fn attr_shape(a: Attribute) -> AttrShape {
    match a {
        Attribute::Static(sa) => AttrShape {
            is_dyn: false,
            name_text: sa.name.name@,
            name_val: Value::Bool(false),
            value: sa.value,
            lo: sa.span.lo as int,
            hi: sa.span.hi as int,
        },
        Attribute::Dyn(d) => AttrShape {
            is_dyn: true,
            name_text: Seq::empty(),
            name_val: d.name,
            value: d.value,
            lo: d.span.lo as int,
            hi: d.span.hi as int,
        },
    }
}

/// What parsing one attribute at `i` yields: a dynamic attribute if the
/// `dyn` keyword stands there, a static one otherwise.
pub open spec fn spec_attribute(t: Seq<Token>, i: int) -> Result<(AttrShape, int), (int, ErrorKind)> {
    if 0 <= i < t.len() && t[i] is DynKw {
        match spec_dyn_attr(t, i) {
            Ok((n, v, e)) => Ok(
                (
                    AttrShape {
                        is_dyn: true,
                        name_text: Seq::empty(),
                        name_val: n,
                        value: v,
                        lo: i,
                        hi: e,
                    },
                    e,
                ),
            ),
            Err(x) => Err(x),
        }
    } else {
        match spec_static_attr(t, i) {
            Ok((n, v, e)) => Ok(
                (
                    AttrShape {
                        is_dyn: false,
                        name_text: n,
                        name_val: Value::Bool(false),
                        value: v,
                        lo: i,
                        hi: e,
                    },
                    e,
                ),
            ),
            Err(x) => Err(x),
        }
    }
}

/// Bounds of `spec_static_attr`: success advances within the input and
/// yields a valid name; failure points into the input.
pub proof fn lemma_spec_static_attr(t: Seq<Token>, i: int)
    requires
        0 <= i <= t.len(),
    ensures
        match spec_static_attr(t, i) {
            Ok((n, v, e)) => i < e <= t.len() && valid_name(n),
            Err((p, k)) => i <= p <= t.len(),
        },
{
    super::lemma_spec_name(t, i);
}

/// Bounds of `spec_dyn_attr`: success advances within the input;
/// failure points into the input.
pub proof fn lemma_spec_dyn_attr(t: Seq<Token>, i: int)
    requires
        0 <= i <= t.len(),
    ensures
        match spec_dyn_attr(t, i) {
            Ok((n, v, e)) => i < e <= t.len(),
            Err((p, k)) => i <= p <= t.len(),
        },
{
}

/// Bounds of `spec_attribute`.
pub proof fn lemma_spec_attribute(t: Seq<Token>, i: int)
    requires
        0 <= i <= t.len(),
    ensures
        match spec_attribute(t, i) {
            Ok((a, e)) => i < e <= t.len() && a.hi == e && a.lo == i && (!a.is_dyn
                ==> valid_name(a.name_text)),
            Err((p, k)) => i <= p <= t.len(),
        },
{
    lemma_spec_static_attr(t, i);
    lemma_spec_dyn_attr(t, i);
}

/// What parsing a parenthesized attribute list yields, from the position
/// just after the `(`: the attributes in source order and the position
/// after the `)`. A trailing comma is allowed; an unterminated list is
/// an error at the end of the input.
pub open spec fn spec_attr_list(t: Seq<Token>, i: int, acc: Seq<AttrShape>) -> Result<
    (Seq<AttrShape>, int),
    (int, ErrorKind),
>
    decreases t.len() - i,
    when 0 <= i <= t.len()
    via spec_attr_list_dec
{
    if i >= t.len() {
        Err((i, ErrorKind::UnexpectedEnd))
    } else if t[i] is CloseParen {
        Ok((acc, i + 1))
    } else {
        match spec_attribute(t, i) {
            Err(e) => Err(e),
            Ok((shape, e)) => if e < t.len() && t[e] is Comma {
                spec_attr_list(t, e + 1, acc.push(shape))
            } else if e < t.len() && t[e] is CloseParen {
                Ok((acc.push(shape), e + 1))
            } else {
                Err((e, end_or_tok(t, e)))
            },
        }
    }
}

#[via_fn]
proof fn spec_attr_list_dec(t: Seq<Token>, i: int, acc: Seq<AttrShape>) {
    if i < t.len() && !(t[i] is CloseParen) {
        lemma_spec_attribute(t, i);
    }
}

/// Bounds and name validity for `spec_attr_list`.
pub proof fn lemma_spec_attr_list(t: Seq<Token>, i: int, acc: Seq<AttrShape>)
    requires
        0 <= i <= t.len(),
    ensures
        match spec_attr_list(t, i, acc) {
            Ok((shapes, e)) => i < e <= t.len() && acc.len() <= shapes.len() && (forall|j: int|
                0 <= j < acc.len() ==> #[trigger] shapes[j] == acc[j]) && (forall|j: int|
                acc.len() <= j < shapes.len() && !(#[trigger] shapes[j]).is_dyn ==> valid_name(
                    shapes[j].name_text,
                )),
            Err((p, k)) => i <= p <= t.len(),
        },
    decreases t.len() - i,
{
    if i < t.len() && !(t[i] is CloseParen) {
        lemma_spec_attribute(t, i);
        match spec_attribute(t, i) {
            Err(e) => {},
            Ok((shape, e)) => {
                if e < t.len() && t[e] is Comma {
                    lemma_spec_attr_list(t, e + 1, acc.push(shape));
                }
            },
        }
    }
}

/// Parses a parenthesized attribute list from the position just after
/// the `(`, returning the attributes and the position after the `)`.
pub fn parse_attr_list(tokens: &Vec<Token>, pos: usize) -> (r: Result<
    (Vec<Attribute>, usize),
    CompileError,
>)
    requires
        pos <= tokens@.len(),
    ensures
        match r {
            Ok((av, end)) => pos < end <= tokens@.len() && spec_attr_list(
                tokens@,
                pos as int,
                Seq::empty(),
            ) == Ok::<_, (int, ErrorKind)>(
                (av@.map_values(|a: Attribute| attr_shape(a)), end as int),
            ) && (forall|j: int| 0 <= j < av@.len() ==> (#[trigger] av@[j]).wf()),
            Err(err) => err.context@ =~= Seq::<Ctx>::empty() && (spec_attr_list(
                tokens@,
                pos as int,
                Seq::empty(),
            ) matches Err((p, k)) && err.pos == p && err.kind == k),
        },
{
    let ghost t = tokens@;
    let mut attrs: Vec<Attribute> = Vec::new();
    let mut i: usize = pos;
    proof {
        assert(attrs@.map_values(|a: Attribute| attr_shape(a)) =~= Seq::<AttrShape>::empty());
    }
    loop
        invariant
            pos <= i <= t.len(),
            t == tokens@,
            spec_attr_list(t, pos as int, Seq::empty()) == spec_attr_list(
                t,
                i as int,
                attrs@.map_values(|a: Attribute| attr_shape(a)),
            ),
            forall|j: int| 0 <= j < attrs@.len() ==> (#[trigger] attrs@[j]).wf(),
        ensures
            pos <= i <= t.len(),
            t == tokens@,
            i < t.len() && t[i as int] is CloseParen,
            spec_attr_list(t, pos as int, Seq::empty()) == Ok::<_, (int, ErrorKind)>(
                (attrs@.map_values(|a: Attribute| attr_shape(a)), i + 1 as int),
            ),
            forall|j: int| 0 <= j < attrs@.len() ==> (#[trigger] attrs@[j]).wf(),
        decreases t.len() - i,
    {
        if i >= tokens.len() {
            return Err(CompileError::new(i, ErrorKind::UnexpectedEnd));
        }
        let at_close = match &tokens[i] {
            Token::CloseParen => true,
            _ => false,
        };
        if at_close {
            break ;
        }
        let (a, e) = match Attribute::parse(tokens, i) {
            Ok(ok) => ok,
            Err(err) => {
                return Err(err);
            },
        };
        let ghost shapes0 = attrs@.map_values(|x: Attribute| attr_shape(x));
        attrs.push(a);
        proof {
            assert(attrs@.map_values(|x: Attribute| attr_shape(x)) =~= shapes0.push(
                attr_shape(a),
            ));
        }
        if e < tokens.len() {
            let sep_comma = match &tokens[e] {
                Token::Comma => true,
                _ => false,
            };
            let sep_close = match &tokens[e] {
                Token::CloseParen => true,
                _ => false,
            };
            if sep_comma {
                i = e + 1;
            } else if sep_close {
                return Ok((attrs, e + 1));
            } else {
                return Err(CompileError::new(e, ErrorKind::UnexpectedToken));
            }
        } else {
            return Err(CompileError::new(e, ErrorKind::UnexpectedEnd));
        }
    }
    let n = tokens.len();
    proof {
        assert(i < n);
    }
    Ok((attrs, i + 1))
}

impl StaticAttribute {
    /// Parses `name [= value]` starting at `pos`.
    pub fn parse(tokens: &Vec<Token>, pos: usize) -> (r: Result<
        (StaticAttribute, usize),
        CompileError,
    >)
        requires
            pos <= tokens@.len(),
        ensures
            match r {
                Ok((a, end)) => pos < end <= tokens@.len() && a.wf() && spec_static_attr(
                    tokens@,
                    pos as int,
                ) == Ok::<_, (int, ErrorKind)>((a.name.name@, a.value, end as int)) && a.span == (
                Span { lo: pos, hi: end }),
                Err(err) => err.context@ =~= Seq::<Ctx>::empty() && (spec_static_attr(
                    tokens@,
                    pos as int,
                ) matches Err((p, k)) && err.pos == p && err.kind == k),
            },
    {
        proof {
            super::lemma_spec_name(tokens@, pos as int);
        }
        let (name, after_name) = match Hyphenated::parse(tokens, pos) {
            Ok(ok) => ok,
            Err(e) => {
                return Err(e);
            },
        };
        let has_eq = after_name < tokens.len() && (match &tokens[after_name] {
            Token::Eq => true,
            _ => false,
        });
        if has_eq {
            if after_name + 1 < tokens.len() {
                match &tokens[after_name + 1] {
                    Token::Value(v) => {
                        let end = after_name + 2;
                        Ok((
                            StaticAttribute {
                                name,
                                value: Some(v.dup()),
                                span: Span { lo: pos, hi: end },
                            },
                            end,
                        ))
                    },
                    _ => Err(CompileError::new(after_name + 1, ErrorKind::UnexpectedToken)),
                }
            } else {
                Err(CompileError::new(after_name + 1, ErrorKind::UnexpectedEnd))
            }
        } else {
            Ok((StaticAttribute { name, value: None, span: Span { lo: pos, hi: after_name } },
            after_name))
        }
    }
}

impl DynAttribute {
    /// Parses `dyn value [= value]` starting at `pos`.
    pub fn parse(tokens: &Vec<Token>, pos: usize) -> (r: Result<
        (DynAttribute, usize),
        CompileError,
    >)
        requires
            pos <= tokens@.len(),
        ensures
            match r {
                Ok((a, end)) => pos < end <= tokens@.len() && spec_dyn_attr(tokens@, pos as int)
                    == Ok::<_, (int, ErrorKind)>((a.name, a.value, end as int)) && a.span == (Span {
                    lo: pos,
                    hi: end,
                }),
                Err(err) => err.context@ =~= Seq::<Ctx>::empty() && (spec_dyn_attr(
                    tokens@,
                    pos as int,
                ) matches Err((p, k)) && err.pos == p && err.kind == k),
            },
    {
        if pos >= tokens.len() {
            return Err(CompileError::new(pos, ErrorKind::UnexpectedToken));
        }
        let is_dyn = match &tokens[pos] {
            Token::DynKw => true,
            _ => false,
        };
        if !is_dyn {
            return Err(CompileError::new(pos, ErrorKind::UnexpectedToken));
        }
        if pos + 1 >= tokens.len() {
            return Err(CompileError::new(pos + 1, ErrorKind::UnexpectedEnd));
        }
        let name = match &tokens[pos + 1] {
            Token::Value(v) => v.dup(),
            _ => {
                return Err(CompileError::new(pos + 1, ErrorKind::UnexpectedToken));
            },
        };
        let has_eq = pos + 2 < tokens.len() && (match &tokens[pos + 2] {
            Token::Eq => true,
            _ => false,
        });
        if has_eq {
            if pos + 3 < tokens.len() {
                match &tokens[pos + 3] {
                    Token::Value(v) => {
                        let end = pos + 4;
                        Ok((
                            DynAttribute {
                                name,
                                value: Some(v.dup()),
                                span: Span { lo: pos, hi: end },
                            },
                            end,
                        ))
                    },
                    _ => Err(CompileError::new(pos + 3, ErrorKind::UnexpectedToken)),
                }
            } else {
                Err(CompileError::new(pos + 3, ErrorKind::UnexpectedEnd))
            }
        } else {
            let end = pos + 2;
            Ok((DynAttribute { name, value: None, span: Span { lo: pos, hi: end } }, end))
        }
    }
}

impl Attribute {
    /// Parses one attribute starting at `pos`: a dynamic one if the
    /// `dyn` keyword stands there, a static one otherwise.
    pub fn parse(tokens: &Vec<Token>, pos: usize) -> (r: Result<(Attribute, usize), CompileError>)
        requires
            pos <= tokens@.len(),
        ensures
            match r {
                Ok((a, end)) => pos < end <= tokens@.len() && a.wf() && a.spec_span() == (Span {
                    lo: pos,
                    hi: end,
                }) && if (pos as int) < tokens@.len() && tokens@[pos as int] is DynKw {
                    a matches Attribute::Dyn(d) && spec_dyn_attr(tokens@, pos as int) == Ok::<
                        _,
                        (int, ErrorKind),
                    >((d.name, d.value, end as int))
                } else {
                    a matches Attribute::Static(sa) && spec_static_attr(tokens@, pos as int)
                        == Ok::<_, (int, ErrorKind)>((sa.name.name@, sa.value, end as int))
                },
                Err(err) => err.context@ =~= Seq::<Ctx>::empty() && if (pos as int)
                    < tokens@.len() && tokens@[pos as int] is DynKw {
                    (spec_dyn_attr(tokens@, pos as int) matches Err((p, k)) && err.pos == p
                        && err.kind == k)
                } else {
                    (spec_static_attr(tokens@, pos as int) matches Err((p, k)) && err.pos == p
                        && err.kind == k)
                },
            },
    {
        let is_dyn = pos < tokens.len() && (match &tokens[pos] {
            Token::DynKw => true,
            _ => false,
        });
        if is_dyn {
            match DynAttribute::parse(tokens, pos) {
                Ok((a, end)) => Ok((Attribute::Dyn(a), end)),
                Err(e) => Err(e),
            }
        } else {
            match StaticAttribute::parse(tokens, pos) {
                Ok((a, end)) => Ok((Attribute::Static(a), end)),
                Err(e) => Err(e),
            }
        }
    }
}

} // verus!
