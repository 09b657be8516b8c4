//! Rendering capabilities for the primitive value types: plain text is
//! escaped, pre-validated text is written verbatim, and `bool` / `Option`
//! control whether an attribute appears at all.

use vstd::prelude::*;
use vstd::string::StrSliceExecFns;
use vstd::string::StringExecFns;

use super::escape_into;
use super::escaped;
use super::lemma_escaped_no_raw;
use super::no_special;
use super::whole_attr_frag;
use super::NoSpecial;
use super::ToHtmlAttr;
use super::ToHtmlNode;
use super::ToWholeHtmlAttr;

verus! {

impl ToHtmlNode for String {
    open spec fn node_out(&self) -> Seq<char> {
        escaped(self@)
    }

    open spec fn node_wf(&self) -> bool {
        true
    }

    fn fmt(&self, out: &mut String) {
        escape_into(self.as_str(), out);
    }
}

impl ToHtmlAttr for String {
    open spec fn attr_out(&self) -> Seq<char> {
        escaped(self@)
    }

    open spec fn attr_wf(&self) -> bool {
        true
    }

    fn fmt(&self, out: &mut String) {
        escape_into(self.as_str(), out);
        proof {
            lemma_escaped_no_raw(self@, '"');
        }
    }
}

impl ToHtmlNode for NoSpecial {
    open spec fn node_out(&self) -> Seq<char> {
        self.0@
    }

    open spec fn node_wf(&self) -> bool {
        self.wf()
    }

    fn fmt(&self, out: &mut String) {
        out.append(self.0.as_str());
    }
}

impl ToHtmlAttr for NoSpecial {
    open spec fn attr_out(&self) -> Seq<char> {
        self.0@
    }

    open spec fn attr_wf(&self) -> bool {
        self.wf()
    }

    fn fmt(&self, out: &mut String) {
        out.append(self.0.as_str());
        proof {
            assert(no_special(self.0@));
            assert forall|i: int| 0 <= i < self.0@.len() implies self.0@[i] != '"' by {
                assert(!super::is_special_char(self.0@[i]));
            }
        }
    }
}

impl ToWholeHtmlAttr for bool {
    open spec fn whole_out(&self, name: Seq<char>) -> Seq<char> {
        if *self {
            seq![' '] + name
        } else {
            Seq::empty()
        }
    }

    open spec fn whole_wf(&self) -> bool {
        true
    }

    fn fmt(&self, name: &NoSpecial, out: &mut String) {
        if *self {
            super::push_char(out, ' ');
            out.append(name.0.as_str());
            proof {
                assert(out@ =~= old(out)@ + (seq![' '] + name.0@));
            }
        } else {
            proof {
                assert(out@ =~= old(out)@ + Seq::<char>::empty());
            }
        }
    }
}

impl<T: ToHtmlAttr> ToWholeHtmlAttr for Option<T> {
    open spec fn whole_out(&self, name: Seq<char>) -> Seq<char> {
        match self {
            Some(value) => whole_attr_frag(name, value.attr_out()),
            None => Seq::empty(),
        }
    }

    open spec fn whole_wf(&self) -> bool {
        match self {
            Some(value) => value.attr_wf(),
            None => true,
        }
    }

    fn fmt(&self, name: &NoSpecial, out: &mut String) {
        match self {
            Some(value) => {
                super::push_char(out, ' ');
                out.append(name.0.as_str());
                super::push_char(out, '=');
                super::push_char(out, '"');
                ToHtmlAttr::fmt(value, out);
                super::push_char(out, '"');
                proof {
                    assert(out@ =~= old(out)@ + whole_attr_frag(name.0@, value.attr_out()));
                }
            },
            None => {
                proof {
                    assert(out@ =~= old(out)@ + Seq::<char>::empty());
                }
            },
        }
    }
}

} // verus!
