//! Id markers (`#name`) and class markers (`.name`).

use vstd::prelude::*;

use super::spec_name;
use super::CompileError;
use super::Ctx;
use super::ErrorKind;
use super::Hyphenated;
use super::Span;
use super::Token;

verus! {

/// An id marker: `#` followed by a name.
pub struct HashId {
    /// The id name following the `#`.
    pub name: Hyphenated,
    /// The marker, `#` included.
    pub span: Span,
}

impl HashId {
    /// Parses `# name` starting at `pos`.
    pub fn parse(tokens: &Vec<Token>, pos: usize) -> (r: Result<(HashId, usize), CompileError>)
        requires
            pos <= tokens@.len(),
        ensures
            match r {
                Ok((h, end)) => pos + 1 < end <= tokens@.len() && (pos as int) < tokens@.len()
                    && tokens@[pos as int] is Hash && spec_name(tokens@, pos + 1) == Ok::<
                    _,
                    int,
                >((h.name.name@, end as int)) && h.name.wf() && h.span == (Span {
                    lo: pos,
                    hi: end,
                }),
                Err(err) => err.context@ =~= Seq::<Ctx>::empty() && if (pos as int)
                    < tokens@.len() && tokens@[pos as int] is Hash {
                    (spec_name(tokens@, pos + 1) matches Err(p) && err.pos == p && err.kind
                        == ErrorKind::ExpectedIdent)
                } else {
                    err.pos == pos && err.kind == ErrorKind::UnexpectedToken
                },
            },
    {
        if pos >= tokens.len() {
            return Err(CompileError::new(pos, ErrorKind::UnexpectedToken));
        }
        match &tokens[pos] {
            Token::Hash => {
                proof {
                    super::lemma_spec_name(tokens@, pos + 1);
                }
                match Hyphenated::parse(tokens, pos + 1) {
                    Ok((name, end)) => Ok((
                        HashId { name, span: Span { lo: pos, hi: end } },
                        end,
                    )),
                    Err(e) => Err(e),
                }
            },
            _ => Err(CompileError::new(pos, ErrorKind::UnexpectedToken)),
        }
    }
}

/// A class marker: `.` followed by a name.
pub struct DotClass {
    /// The class name following the `.`.
    pub name: Hyphenated,
    /// The marker, `.` included.
    pub span: Span,
}

impl DotClass {
    /// Parses `. name` starting at `pos`.
    pub fn parse(tokens: &Vec<Token>, pos: usize) -> (r: Result<(DotClass, usize), CompileError>)
        requires
            pos <= tokens@.len(),
        ensures
            match r {
                Ok((c, end)) => pos + 1 < end <= tokens@.len() && (pos as int) < tokens@.len()
                    && tokens@[pos as int] is Dot && spec_name(tokens@, pos + 1) == Ok::<
                    _,
                    int,
                >((c.name.name@, end as int)) && c.name.wf() && c.span == (Span {
                    lo: pos,
                    hi: end,
                }),
                Err(err) => err.context@ =~= Seq::<Ctx>::empty() && if (pos as int)
                    < tokens@.len() && tokens@[pos as int] is Dot {
                    (spec_name(tokens@, pos + 1) matches Err(p) && err.pos == p && err.kind
                        == ErrorKind::ExpectedIdent)
                } else {
                    err.pos == pos && err.kind == ErrorKind::UnexpectedToken
                },
            },
    {
        if pos >= tokens.len() {
            return Err(CompileError::new(pos, ErrorKind::UnexpectedToken));
        }
        match &tokens[pos] {
            Token::Dot => {
                proof {
                    super::lemma_spec_name(tokens@, pos + 1);
                }
                match Hyphenated::parse(tokens, pos + 1) {
                    Ok((name, end)) => Ok((
                        DotClass { name, span: Span { lo: pos, hi: end } },
                        end,
                    )),
                    Err(e) => Err(e),
                }
            },
            _ => Err(CompileError::new(pos, ErrorKind::UnexpectedToken)),
        }
    }
}

} // verus!
