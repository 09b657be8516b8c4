//! Symbols the code generator plants in compiled procedures.

use vstd::prelude::*;
use vstd::string::StrSliceExecFns;
use vstd::string::StringExecFns;

use super::escape_into;
use super::escaped;
use super::lemma_escaped_no_raw;
use super::no_special;
use super::push_char;
use super::ToHtmlAttr;

verus! {

/// Concatenates a caller-supplied class value with the joined class
/// markers known at compile time.
///
/// The first field is the caller-provided value, rendered escaped; the
/// second is the space-joined marker names, written verbatim. The rendered
/// value is the caller value, a single space, then the markers — unless
/// the caller value is empty, in which case it is the markers alone.
pub struct ClassConcat(pub String, pub String);

impl ClassConcat {
    /// The exact attribute-value text this concatenation writes.
    pub open spec fn concat_out(&self) -> Seq<char> {
        if self.0@.len() == 0 {
            self.1@
        } else {
            escaped(self.0@) + seq![' '] + self.1@
        }
    }
}

impl ToHtmlAttr for ClassConcat {
    open spec fn attr_out(&self) -> Seq<char> {
        self.concat_out()
    }

    open spec fn attr_wf(&self) -> bool {
        no_special(self.1@)
    }

    fn fmt(&self, out: &mut String) {
        if self.0.as_str().unicode_len() == 0 {
            out.append(self.1.as_str());
        } else {
            escape_into(self.0.as_str(), out);
            push_char(out, ' ');
            out.append(self.1.as_str());
            proof {
                assert(out@ =~= old(out)@ + (escaped(self.0@) + seq![' '] + self.1@));
            }
        }
        proof {
            lemma_escaped_no_raw(self.0@, '"');
            assert forall|i: int| 0 <= i < self.attr_out().len() implies self.attr_out()[i]
                != '"' by {
                if self.0@.len() == 0 {
                    assert(!super::is_special_char(self.1@[i]));
                } else {
                    let head = escaped(self.0@) + seq![' '];
                    if i >= head.len() {
                        assert(!super::is_special_char(self.1@[i - head.len()]));
                    } else if i < escaped(self.0@).len() {
                        assert(!escaped(self.0@).contains('"'));
                    }
                }
            }
        }
    }
}

} // verus!
