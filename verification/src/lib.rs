//! A small markup templating library.
//!
//! A template is a sequence of tokens describing nested elements with
//! classes, an optional id, attributes and children, or embedded values.
//! [`html`](codegen::html) compiles such a token sequence into a reusable
//! rendering procedure ([`codegen::Html`]) that, when run, writes the
//! equivalent markup text with all value-dependent content escaped.
//!
//! The rendering capabilities live here: [`ToHtmlNode`] writes a node's
//! content, [`ToHtmlAttr`] writes an attribute value, and
//! [`ToWholeHtmlAttr`] writes a complete ` name="value"` fragment.

use vstd::prelude::*;
use vstd::string::StrSliceExecFns;
use vstd::string::StringExecFns;

pub mod codegen;
pub mod hc;
pub mod laws;
pub mod parse;
mod primitives;

verus! {

/// The characters that must never appear raw in escaped output.
pub open spec fn is_special_char(c: char) -> bool {
    c == '&' || c == '<' || c == '>' || c == '\'' || c == '"'
}

/// Holds when no character of `s` is one of `& < > ' "`.
pub open spec fn no_special(s: Seq<char>) -> bool {
    forall|i: int| 0 <= i < s.len() ==> !is_special_char(#[trigger] s[i])
}

/// The replacement for a single character: the entity for a special
/// character, the character itself otherwise.
pub open spec fn escaped_char(c: char) -> Seq<char> {
    if c == '&' {
        seq!['&', 'a', 'm', 'p', ';']
    } else if c == '<' {
        seq!['&', 'l', 't', ';']
    } else if c == '>' {
        seq!['&', 'g', 't', ';']
    } else if c == '\'' {
        seq!['&', 'a', 'p', 'o', 's', ';']
    } else if c == '"' {
        seq!['&', 'q', 'u', 'o', 't', ';']
    } else {
        seq![c]
    }
}

/// The escaped form of a text: each character replaced by `escaped_char`.
pub open spec fn escaped(s: Seq<char>) -> Seq<char>
    decreases s.len(),
{
    if s.len() == 0 {
        Seq::empty()
    } else {
        escaped_char(s[0]) + escaped(s.drop_first())
    }
}

/// Escaping distributes over concatenation.
pub proof fn lemma_escaped_app(a: Seq<char>, b: Seq<char>)
    ensures
        escaped(a + b) == escaped(a) + escaped(b),
    decreases a.len(),
{
    if a.len() == 0 {
        assert(a + b =~= b);
        assert(escaped(a) + escaped(b) =~= escaped(b));
    } else {
        lemma_escaped_app(a.drop_first(), b);
        assert((a + b).drop_first() =~= a.drop_first() + b);
        assert(escaped(a + b) =~= escaped(a) + escaped(b));
    }
}

/// Text with no special characters escapes to itself.
pub proof fn lemma_no_special_escaped_identity(s: Seq<char>)
    requires
        no_special(s),
    ensures
        escaped(s) == s,
    decreases s.len(),
{
    if s.len() > 0 {
        lemma_no_special_escaped_identity(s.drop_first());
        assert(escaped(s) =~= s);
    }
}

/// No escaped text contains a raw special character other than `&`
/// (which begins each entity).
pub proof fn lemma_escaped_char_no_raw(x: char, c: char)
    requires
        is_special_char(c),
        c != '&',
    ensures
        !escaped_char(x).contains(c),
{
    assert forall|i: int| 0 <= i < escaped_char(x).len() implies escaped_char(x)[i] != c by {
        if !is_special_char(x) {
            assert(escaped_char(x) =~= seq![x]);
        }
    }
}

/// Escaped text never contains a raw `< > ' "`.
pub proof fn lemma_escaped_no_raw(s: Seq<char>, c: char)
    requires
        is_special_char(c),
        c != '&',
    ensures
        !escaped(s).contains(c),
    decreases s.len(),
{
    if s.len() > 0 {
        lemma_escaped_char_no_raw(s[0], c);
        lemma_escaped_no_raw(s.drop_first(), c);
        assert forall|i: int| 0 <= i < escaped(s).len() implies escaped(s)[i] != c by {
            let head = escaped_char(s[0]);
            if i < head.len() {
                assert(head[i] != c);
            } else {
                assert(escaped(s.drop_first())[i - head.len()] != c);
            }
        }
    }
}

/// The pattern `pat` occurs in `t` starting at index `i`.
pub open spec fn contains_seq_at(t: Seq<char>, i: int, pat: Seq<char>) -> bool {
    0 <= i && i + pat.len() <= t.len() && t.subrange(i, i + pat.len()) == pat
}

/// The pattern `pat` occurs somewhere in `t`.
pub open spec fn contains_seq(t: Seq<char>, pat: Seq<char>) -> bool {
    exists|i: int| contains_seq_at(t, i, pat)
}

/// An occurrence in `b` is an occurrence in `a + b`, shifted by `a`'s
/// length.
pub proof fn lemma_contains_seq_at_shift(a: Seq<char>, b: Seq<char>, i: int, pat: Seq<char>)
    requires
        contains_seq_at(b, i, pat),
    ensures
        contains_seq_at(a + b, a.len() + i, pat),
{
    assert((a + b).subrange(a.len() + i, a.len() + i + pat.len()) =~= b.subrange(
        i,
        i + pat.len(),
    ));
}

/// Escaped text contains the entity of every special character of the
/// source text.
pub proof fn lemma_escaped_contains_entity(s: Seq<char>, c: char)
    requires
        is_special_char(c),
        s.contains(c),
    ensures
        contains_seq(escaped(s), escaped_char(c)),
    decreases s.len(),
{
    let head = escaped_char(s[0]);
    if s[0] == c {
        assert(escaped(s).subrange(0, head.len() as int) =~= head);
        assert(contains_seq_at(escaped(s), 0, head));
    } else {
        let w = choose|w: int| 0 <= w < s.len() && s[w] == c;
        assert(s.drop_first()[w - 1] == c);
        assert(s.drop_first().contains(c));
        lemma_escaped_contains_entity(s.drop_first(), c);
        let i = choose|i: int| contains_seq_at(escaped(s.drop_first()), i, escaped_char(c));
        lemma_contains_seq_at_shift(head, escaped(s.drop_first()), i, escaped_char(c));
        assert(contains_seq_at(escaped(s), head.len() + i, escaped_char(c)));
    }
}

/// Every `&` in escaped text begins an entity: the raw character never
/// stands on its own.
pub proof fn lemma_escaped_amp_is_entity(s: Seq<char>, i: int)
    requires
        0 <= i < escaped(s).len(),
        escaped(s)[i] == '&',
    ensures
        exists|c: char| is_special_char(c) && contains_seq_at(escaped(s), i, escaped_char(c)),
    decreases s.len(),
{
    let head = escaped_char(s[0]);
    let rest = escaped(s.drop_first());
    if i < head.len() {
        if is_special_char(s[0]) {
            assert(head[i] == '&');
            assert(i == 0);
            assert(escaped(s).subrange(0, head.len() as int) =~= head);
            assert(contains_seq_at(escaped(s), 0, escaped_char(s[0])));
        } else {
            assert(head =~= seq![s[0]]);
            assert(false);
        }
    } else {
        assert(rest[i - head.len()] == '&');
        lemma_escaped_amp_is_entity(s.drop_first(), i - head.len());
        let c = choose|c: char|
            is_special_char(c) && contains_seq_at(rest, i - head.len(), escaped_char(c));
        lemma_contains_seq_at_shift(head, rest, i - head.len(), escaped_char(c));
        assert(contains_seq_at(escaped(s), i, escaped_char(c)));
    }
}

/// Appends one character to the end of the string.
///
/// Relies on `String::push`: appends the given `char` onto the end.
#[verifier::external_body]
fn push_char(out: &mut String, c: char)
    ensures
        final(out)@ == old(out)@ + seq![c],
{
    out.push(c);
}

/// Appends the escaped form of `s` to `out`, replacing each of `& < > ' "`
/// by its entity.
pub fn escape_into(s: &str, out: &mut String)
    ensures
        final(out)@ == old(out)@ + escaped(s@),
{
    let n = s.unicode_len();
    let mut i: usize = 0;
    while i < n
        invariant
            n == s@.len(),
            0 <= i <= n,
            out@ == old(out)@ + escaped(s@.subrange(0, i as int)),
        decreases n - i,
    {
        proof {
            reveal_strlit("&amp;");
            reveal_strlit("&lt;");
            reveal_strlit("&gt;");
            reveal_strlit("&apos;");
            reveal_strlit("&quot;");
        }
        let c = s.get_char(i);
        if c == '&' {
            out.append("&amp;");
        } else if c == '<' {
            out.append("&lt;");
        } else if c == '>' {
            out.append("&gt;");
        } else if c == '\'' {
            out.append("&apos;");
        } else if c == '"' {
            out.append("&quot;");
        } else {
            push_char(out, c);
        }
        proof {
            let pre = s@.subrange(0, i as int);
            assert(s@.subrange(0, i + 1 as int) =~= pre + seq![s@[i as int]]);
            lemma_escaped_app(pre, seq![s@[i as int]]);
            let single = seq![s@[i as int]];
            assert(single.drop_first() =~= Seq::<char>::empty());
            assert(escaped(Seq::<char>::empty()) =~= Seq::<char>::empty());
            assert(escaped(single) =~= escaped_char(single[0]) + escaped(single.drop_first()));
            assert(escaped(single) =~= escaped_char(s@[i as int]));
            assert(out@ =~= old(out)@ + escaped(s@.subrange(0, i + 1 as int)));
        }
        i += 1;
    }
    proof {
        assert(s@.subrange(0, n as int) =~= s@);
    }
}

/// Compares two string slices character by character.
pub fn str_eq(a: &str, b: &str) -> (r: bool)
    ensures
        r == (a@ == b@),
{
    let na = a.unicode_len();
    let nb = b.unicode_len();
    if na != nb {
        return false;
    }
    let mut i: usize = 0;
    while i < na
        invariant
            na == a@.len(),
            na == b@.len(),
            0 <= i <= na,
            forall|j: int| 0 <= j < i ==> a@[j] == b@[j],
        decreases na - i,
    {
        if a.get_char(i) != b.get_char(i) {
            return false;
        }
        i += 1;
    }
    proof {
        assert(a@ =~= b@);
    }
    true
}

/// Reports whether `s` contains any of the special characters `& < > ' "`.
pub fn has_special_chars(s: &str) -> (r: bool)
    ensures
        r == !no_special(s@),
{
    let n = s.unicode_len();
    let mut i: usize = 0;
    while i < n
        invariant
            n == s@.len(),
            0 <= i <= n,
            forall|j: int| 0 <= j < i ==> !is_special_char(#[trigger] s@[j]),
        decreases n - i,
    {
        let c = s.get_char(i);
        if c == '&' || c == '<' || c == '>' || c == '\'' || c == '"' {
            return true;
        }
        i += 1;
    }
    false
}

/// Indicates that the wrapped text is guaranteed to have no special
/// characters, so rendering it may skip the escaping pass.
///
/// "No special characters" means absolutely none, escaped or not
/// (`&amp;` still contains the special character `&`). Never wrap
/// caller-supplied free text in this type.
pub struct NoSpecial(pub String);

impl NoSpecial {
    /// The wrapped text really has no special characters.
    pub open spec fn wf(&self) -> bool {
        no_special(self.0@)
    }

    /// Wraps text after the caller has established that it has no special
    /// characters.
    pub fn debug_checked(value: &str) -> (r: Self)
        requires
            no_special(value@),
        ensures
            r.0@ == value@,
            r.wf(),
    {
        NoSpecial(value.to_owned())
    }
}

/// The complete ` name="value"` fragment for an attribute with the given
/// rendered value text, including the leading space.
pub open spec fn whole_attr_frag(name: Seq<char>, value: Seq<char>) -> Seq<char> {
    seq![' '] + name + seq!['=', '"'] + value + seq!['"']
}

/// A node is either an element or embedded content; this renders the
/// content of one node.
pub trait ToHtmlNode {
    /// The exact text this node writes.
    spec fn node_out(&self) -> Seq<char>;

    /// What the implementation needs of the value before it may render.
    spec fn node_wf(&self) -> bool;

    /// Writes the content of the node.
    fn fmt(&self, out: &mut String)
        requires
            self.node_wf(),
        ensures
            final(out)@ == old(out)@ + self.node_out(),
    ;
}

/// Writes a whole attribute, where the name is given and the value is
/// `self`.
///
/// Prefer implementing `ToHtmlAttr` over this trait if the attribute
/// always has a name and a value; this trait is implemented directly only
/// for types with conditional presence (`bool`, `Option`), which decide
/// whether the attribute appears at all.
pub trait ToWholeHtmlAttr {
    /// The exact text written for an attribute named `name`.
    spec fn whole_out(&self, name: Seq<char>) -> Seq<char>;

    /// What the implementation needs of the value before it may render.
    spec fn whole_wf(&self) -> bool;

    /// Writes the whole attribute, **including the leading space before
    /// the attribute name**, to the output.
    fn fmt(&self, name: &NoSpecial, out: &mut String)
        requires
            self.whole_wf(),
            name.wf(),
        ensures
            final(out)@ == old(out)@ + self.whole_out(name.0@),
    ;
}

/// Writes an attribute value.
///
/// Every implementor gets `ToWholeHtmlAttr` for free through a blanket
/// implementation.
pub trait ToHtmlAttr {
    /// The exact text this value writes.
    spec fn attr_out(&self) -> Seq<char>;

    /// What the implementation needs of the value before it may render.
    spec fn attr_wf(&self) -> bool;

    /// Writes the attribute value.
    ///
    /// No implementation may ever write an unescaped `"` character, as the
    /// second `ensures` clause demands.
    fn fmt(&self, out: &mut String)
        requires
            self.attr_wf(),
        ensures
            final(out)@ == old(out)@ + self.attr_out(),
            !self.attr_out().contains('"'),
    ;
}

impl<T: ToHtmlAttr> ToWholeHtmlAttr for T {
    open spec fn whole_out(&self, name: Seq<char>) -> Seq<char> {
        whole_attr_frag(name, self.attr_out())
    }

    open spec fn whole_wf(&self) -> bool {
        self.attr_wf()
    }

    fn fmt(&self, name: &NoSpecial, out: &mut String) {
        push_char(out, ' ');
        out.append(name.0.as_str());
        push_char(out, '=');
        push_char(out, '"');
        ToHtmlAttr::fmt(self, out);
        push_char(out, '"');
        proof {
            assert(out@ =~= old(out)@ + whole_attr_frag(name.0@, self.attr_out()));
        }
    }
}

/// The fully rendered output of a template: already-escaped markup text.
///
/// Embedded as a node, it is written verbatim, with no escaping pass.
pub struct HtmlString(pub String);

impl ToHtmlNode for HtmlString {
    open spec fn node_out(&self) -> Seq<char> {
        self.0@
    }

    open spec fn node_wf(&self) -> bool {
        true
    }

    fn fmt(&self, out: &mut String) {
        out.append(self.0.as_str());
    }
}

} // verus!
