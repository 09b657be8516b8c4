//! Hyphenated names: one or more identifier segments joined by `-`,
//! used for element names, class names, id names and attribute names.

use vstd::prelude::*;
use vstd::string::StrSliceExecFns;
use vstd::string::StringExecFns;

use super::ident_at;
use super::ident_text;
use super::CompileError;
use super::ErrorKind;
use super::Span;
use super::Token;
use crate::no_special;

verus! {

/// A character an identifier segment may contain: ASCII alphanumeric
/// or underscore.
pub open spec fn is_ident_char(c: char) -> bool {
    (('a' as u32) <= (c as u32) && (c as u32) <= ('z' as u32)) || (('A' as u32) <= (c as u32) && (c
        as u32) <= ('Z' as u32)) || (('0' as u32) <= (c as u32) && (c as u32) <= ('9' as u32)) || c
        == '_'
}

/// A valid identifier segment: nonempty, identifier characters only.
pub open spec fn valid_ident(s: Seq<char>) -> bool {
    s.len() > 0 && forall|i: int| 0 <= i < s.len() ==> is_ident_char(#[trigger] s[i])
}

/// A valid hyphenated name: nonempty, identifier characters and hyphens.
pub open spec fn valid_name(s: Seq<char>) -> bool {
    s.len() > 0 && forall|i: int| 0 <= i < s.len() ==> is_ident_char(#[trigger] s[i]) || s[i] == '-'
}

/// A valid name contains no special characters, so it never needs
/// escaping.
pub proof fn lemma_valid_name_no_special(s: Seq<char>)
    requires
        valid_name(s),
    ensures
        no_special(s),
{
    assert forall|i: int| 0 <= i < s.len() implies !crate::is_special_char(s[i]) by {
        assert(is_ident_char(s[i]) || s[i] == '-');
    }
}

/// Reports whether `s` is a valid identifier segment.
pub fn is_ident(s: &str) -> (r: bool)
    ensures
        r == valid_ident(s@),
{
    let n = s.unicode_len();
    if n == 0 {
        return false;
    }
    let mut i: usize = 0;
    while i < n
        invariant
            n == s@.len(),
            0 <= i <= n,
            forall|j: int| 0 <= j < i ==> is_ident_char(#[trigger] s@[j]),
        decreases n - i,
    {
        let c = s.get_char(i);
        let u = c as u32;
        let ok = (('a' as u32) <= u && u <= ('z' as u32)) || (('A' as u32) <= u && u <= ('Z'
            as u32)) || (('0' as u32) <= u && u <= ('9' as u32)) || c == '_';
        if !ok {
            return false;
        }
        i += 1;
    }
    true
}

/// What parsing a name at position `i` yields once the first segment
/// `acc` has been read: more `- segment` pairs are taken greedily, and a
/// hyphen not followed by a valid identifier is an error at the position
/// after the hyphen.
pub open spec fn spec_name_rest(t: Seq<Token>, i: int, acc: Seq<char>) -> Result<
    (Seq<char>, int),
    int,
>
    decreases t.len() - i,
    when 0 <= i <= t.len()
{
    if i < t.len() && t[i] is Hyphen {
        if ident_at(t, i + 1) {
            spec_name_rest(t, i + 2, acc + seq!['-'] + ident_text(t[i + 1]))
        } else {
            Err(i + 1)
        }
    } else {
        Ok((acc, i))
    }
}

/// What parsing a hyphenated name at position `i` yields: the name's
/// text and the position after it, or the position of the error.
pub open spec fn spec_name(t: Seq<Token>, i: int) -> Result<(Seq<char>, int), int> {
    if ident_at(t, i) {
        spec_name_rest(t, i + 1, ident_text(t[i]))
    } else {
        Err(i)
    }
}

/// Bounds and well-formedness of `spec_name_rest`: the end position never
/// runs backwards or past the input, and a valid accumulator stays a
/// valid name.
pub proof fn lemma_spec_name_rest(t: Seq<Token>, i: int, acc: Seq<char>)
    requires
        0 <= i <= t.len(),
    ensures
        match spec_name_rest(t, i, acc) {
            Ok((n, e)) => i <= e <= t.len() && (valid_name(acc) ==> valid_name(n)) && (forall|
                j: int,
            | i <= j < e ==> (#[trigger] t[j]) is Ident || t[j] is Hyphen),
            Err(p) => i <= p <= t.len(),
        },
    decreases t.len() - i,
{
    if i < t.len() && t[i] is Hyphen && ident_at(t, i + 1) {
        let acc2 = acc + seq!['-'] + ident_text(t[i + 1]);
        lemma_spec_name_rest(t, i + 2, acc2);
        if valid_name(acc) {
            assert forall|k: int| 0 <= k < acc2.len() implies is_ident_char(#[trigger] acc2[k])
                || acc2[k] == '-' by {
                let seg = ident_text(t[i + 1]);
                if k < acc.len() {
                    assert(acc2[k] == acc[k]);
                } else if k == acc.len() {
                    assert(acc2[k] == '-');
                } else {
                    assert(acc2[k] == seg[k - acc.len() - 1]);
                }
            }
            assert(valid_name(acc2));
        }
    }
}

/// Bounds and well-formedness of `spec_name`: on success the name is
/// valid and the parse advanced; on failure the error lies in range.
pub proof fn lemma_spec_name(t: Seq<Token>, i: int)
    requires
        0 <= i <= t.len(),
    ensures
        match spec_name(t, i) {
            Ok((n, e)) => i < e <= t.len() && valid_name(n) && (forall|j: int|
                i <= j < e ==> (#[trigger] t[j]) is Ident || t[j] is Hyphen),
            Err(p) => i <= p <= t.len(),
        },
{
    if ident_at(t, i) {
        let seg = ident_text(t[i]);
        assert(valid_name(seg));
        lemma_spec_name_rest(t, i + 1, seg);
    }
}

/// A hyphen-joined name: one or more identifier segments joined by `-`.
///
/// Equality is by the textual value; the span records where in the token
/// stream the name stood.
pub struct Hyphenated {
    /// The joined text of the name.
    pub name: String,
    /// Where the name stood.
    pub span: Span,
}

impl PartialEq for Hyphenated {
    fn eq(&self, other: &Hyphenated) -> (r: bool) {
        self.name == other.name
    }
}

impl Eq for Hyphenated {

}

impl vstd::std_specs::cmp::PartialEqSpecImpl for Hyphenated {
    open spec fn obeys_eq_spec() -> bool {
        true
    }

    open spec fn eq_spec(&self, other: &Hyphenated) -> bool {
        self.name@ == other.name@
    }
}

impl Hyphenated {
    /// The name text is a valid hyphenated name.
    pub open spec fn wf(&self) -> bool {
        valid_name(self.name@)
    }

    /// The name's textual value.
    pub fn as_str(&self) -> (r: &str)
        ensures
            r@ == self.name@,
    {
        self.name.as_str()
    }

    /// Where the name stood.
    pub fn span(&self) -> (r: Span)
        ensures
            r == self.span,
    {
        self.span
    }

    /// Parses a hyphenated name starting at `pos`.
    pub fn parse(tokens: &Vec<Token>, pos: usize) -> (r: Result<(Hyphenated, usize), CompileError>)
        requires
            pos <= tokens@.len(),
        ensures
            match spec_name(tokens@, pos as int) {
                Ok((n, e)) => r matches Ok((h, end)) && h.name@ == n && end == e && h.wf()
                    && h.span == (Span { lo: pos, hi: e as usize }),
                Err(p) => r matches Err(err) && err.pos == p && err.kind
                    == ErrorKind::ExpectedIdent && err.context@ =~= Seq::<super::Ctx>::empty(),
            },
            (r matches Ok((h, end)) ==> pos < end <= tokens@.len()),
    {
        proof {
            lemma_spec_name(tokens@, pos as int);
        }
        if pos >= tokens.len() {
            return Err(CompileError::new(pos, ErrorKind::ExpectedIdent));
        }
        let mut name: String;
        match &tokens[pos] {
            Token::Ident(s) => {
                if !is_ident(s.as_str()) {
                    return Err(CompileError::new(pos, ErrorKind::ExpectedIdent));
                }
                name = s.clone();
            },
            _ => {
                return Err(CompileError::new(pos, ErrorKind::ExpectedIdent));
            },
        }
        let ghost t = tokens@;
        let mut i: usize = pos + 1;
        loop
            invariant
                pos < i <= t.len(),
                t == tokens@,
                spec_name(t, pos as int) == spec_name_rest(t, i as int, name@),
            ensures
                pos < i <= t.len(),
                spec_name(t, pos as int) == Ok::<(Seq<char>, int), int>((name@, i as int)),
            decreases t.len() - i,
        {
            if i >= tokens.len() {
                break ;
            }
            let is_hyphen = match &tokens[i] {
                Token::Hyphen => true,
                _ => false,
            };
            if !is_hyphen {
                break ;
            }
            if i + 1 >= tokens.len() {
                return Err(CompileError::new(i + 1, ErrorKind::ExpectedIdent));
            }
            match &tokens[i + 1] {
                Token::Ident(s) => {
                    if !is_ident(s.as_str()) {
                        return Err(CompileError::new(i + 1, ErrorKind::ExpectedIdent));
                    }
                    let ghost acc0 = name@;
                    name.append("-");
                    name.append(s.as_str());
                    proof {
                        reveal_strlit("-");
                        assert(name@ =~= acc0 + seq!['-'] + ident_text(t[i + 1]));
                    }
                },
                _ => {
                    return Err(CompileError::new(i + 1, ErrorKind::ExpectedIdent));
                },
            }
            i += 2;
        }
        proof {
            lemma_spec_name(t, pos as int);
        }
        Ok((Hyphenated { name, span: Span { lo: pos, hi: i } }, i))
    }
}

} // verus!
