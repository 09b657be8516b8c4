//! The code generator and the compiled rendering procedure.
//!
//! [`html`] parses a token sequence and walks the tree once, resolving
//! every element's attribute set (folding the id marker and the class
//! markers into synthesized `id` and `class` attributes, and rejecting
//! collisions) into an [`Html`] procedure. Rendering the procedure walks
//! the resolved tree and writes the markup text through the rendering
//! capabilities; it performs no checks and cannot fail.
//!
//! A dynamic attribute's name is always validated — against the special
//! characters and against the resolved static names — and a bad one is a
//! compile error: since a template embeds its values, nothing is left to
//! check at render time.

use vstd::prelude::*;
use vstd::string::StrSliceExecFns;
use vstd::string::StringExecFns;

use crate::escaped;
use crate::hc::ClassConcat;
use crate::no_special;
use crate::parse::CompileError;
use crate::parse::ErrorKind;
use crate::parse::Value;
use crate::whole_attr_frag;
use crate::HtmlString;
use crate::NoSpecial;
use crate::ToHtmlAttr;
use crate::ToHtmlNode;
use crate::ToWholeHtmlAttr;

verus! {

/// A resolved attribute value, ready to render.
pub enum AttrValue {
    /// Plain text, escaped when rendered.
    Text(String),
    /// Pre-validated text, written verbatim.
    NoSpec(NoSpecial),
    /// A caller class value merged with the joined class markers.
    Concat(ClassConcat),
    /// Presence-only: the attribute appears iff `true`.
    Bool(bool),
    /// Optional: the attribute appears iff present.
    OptText(Option<String>),
}

/// A resolved attribute: a pre-validated name and a value.
pub struct RAttr {
    /// The attribute name; never escaped, so it must hold no specials.
    pub name: NoSpecial,
    /// The attribute value.
    pub value: AttrValue,
}

/// A resolved node of a compiled procedure.
pub enum RNode {
    /// An embedded value, rendered as a node.
    Value(Value),
    /// A resolved element.
    Element(RElement),
}

/// A resolved element: name, resolved attributes in their final order,
/// and children (absent means self-closing).
pub struct RElement {
    /// The element name.
    pub name: NoSpecial,
    /// The resolved attributes, in rendering order.
    pub attrs: Vec<RAttr>,
    /// The resolved children, if the element has a child block.
    pub children: Option<Vec<RNode>>,
}

/// A compiled rendering procedure: running it writes the template's
/// markup text, identically on every run.
pub struct Html {
    /// The resolved top-level nodes.
    pub nodes: Vec<RNode>,
}

/// The spec-level view of a resolved attribute value.
pub enum AttrValV {
    /// Plain text, escaped when rendered.
    Text(Seq<char>),
    /// Pre-validated text, written verbatim.
    NoSpec(Seq<char>),
    /// A caller class value (escaped) merged with joined markers
    /// (verbatim).
    Concat(Seq<char>, Seq<char>),
    /// Presence-only.
    Bool(bool),
    /// Optional.
    OptText(Option<Seq<char>>),
}

/// The view of a resolved attribute value.
pub open spec fn attr_value_v(a: AttrValue) -> AttrValV {
    match a {
        AttrValue::Text(s) => AttrValV::Text(s@),
        AttrValue::NoSpec(ns) => AttrValV::NoSpec(ns.0@),
        AttrValue::Concat(cc) => AttrValV::Concat(cc.0@, cc.1@),
        AttrValue::Bool(b) => AttrValV::Bool(b),
        AttrValue::OptText(o) => AttrValV::OptText(
            match o {
                Some(s) => Some(s@),
                None => None,
            },
        ),
    }
}

/// The view of a resolved attribute: its name and its value.
pub open spec fn rattr_v(r: RAttr) -> (Seq<char>, AttrValV) {
    (r.name.0@, attr_value_v(r.value))
}

/// The exact text one whole attribute writes: a ` name="value"` fragment
/// with the value escaped as its kind demands, a bare ` name` for a true
/// boolean, or nothing for a false boolean or an absent optional.
pub open spec fn whole_attr_out(name: Seq<char>, v: AttrValV) -> Seq<char> {
    match v {
        AttrValV::Text(s) => whole_attr_frag(name, escaped(s)),
        AttrValV::NoSpec(s) => whole_attr_frag(name, s),
        AttrValV::Concat(val, lit) => whole_attr_frag(
            name,
            if val.len() == 0 {
                lit
            } else {
                escaped(val) + seq![' '] + lit
            },
        ),
        AttrValV::Bool(b) => if b {
            seq![' '] + name
        } else {
            Seq::empty()
        },
        AttrValV::OptText(o) => match o {
            Some(s) => whole_attr_frag(name, escaped(s)),
            None => Seq::empty(),
        },
    }
}

/// The text a resolved attribute list writes, in order.
pub open spec fn pairs_out(rs: Seq<(Seq<char>, AttrValV)>) -> Seq<char>
    decreases rs.len(),
{
    if rs.len() == 0 {
        Seq::empty()
    } else {
        whole_attr_out(rs[0].0, rs[0].1) + pairs_out(rs.drop_first())
    }
}

/// The text an embedded value writes in node position: escaped for
/// plain text, verbatim for pre-rendered or pre-validated text.
pub open spec fn node_value_out(v: Value) -> Seq<char> {
    match v {
        Value::Text(s) => escaped(s@),
        Value::Rendered(h) => h.0@,
        Value::NoSpec(ns) => ns.0@,
        Value::Bool(_) => Seq::empty(),
        Value::OptText(_) => Seq::empty(),
    }
}

/// Whether a value may stand in node position.
pub open spec fn is_node_value(v: Value) -> bool {
    match v {
        Value::Text(_) => true,
        Value::Rendered(_) => true,
        Value::NoSpec(ns) => no_special(ns.0@),
        Value::Bool(_) => false,
        Value::OptText(_) => false,
    }
}

impl RAttr {
    /// The name and any pre-validated part really hold no specials.
    pub open spec fn wf(&self) -> bool {
        &&& no_special(self.name.0@)
        &&& match self.value {
            AttrValue::NoSpec(ns) => no_special(ns.0@),
            AttrValue::Concat(cc) => no_special(cc.1@),
            _ => true,
        }
    }
}

impl RNode {
    /// Every embedded value is renderable and every verbatim part is
    /// really special-free.
    pub open spec fn wf(&self) -> bool
        decreases *self,
    {
        match self {
            RNode::Value(v) => is_node_value(*v),
            RNode::Element(e) => {
                &&& no_special(e.name.0@)
                &&& (forall|i: int| 0 <= i < e.attrs@.len() ==> (#[trigger] e.attrs@[i]).wf())
                &&& (match e.children {
                    Some(cs) => forall|i: int|
                        0 <= i < cs@.len() ==> (#[trigger] cs@[i]).wf(),
                    None => true,
                })
            },
        }
    }
}

/// The exact text a resolved node writes.
pub open spec fn rnode_out(n: RNode) -> Seq<char>
    decreases n,
{
    match n {
        RNode::Value(v) => node_value_out(v),
        RNode::Element(e) => seq!['<'] + e.name.0@ + pairs_out(e.attrs@.map_values(|r: RAttr| rattr_v(r)))
            + (match e.children {
            None => seq!['/', '>'],
            Some(cs) => seq!['>'] + rnodes_out(cs@) + seq!['<', '/'] + e.name.0@ + seq!['>'],
        }),
    }
}

/// The exact text a sequence of resolved nodes writes, in order.
pub open spec fn rnodes_out(ns: Seq<RNode>) -> Seq<char>
    decreases ns,
{
    if ns.len() == 0 {
        Seq::empty()
    } else {
        rnode_out(ns[0]) + rnodes_out(ns.drop_first())
    }
}

impl Html {
    /// Every resolved part of the procedure is well formed.
    pub open spec fn wf(&self) -> bool {
        forall|i: int| 0 <= i < self.nodes@.len() ==> (#[trigger] self.nodes@[i]).wf()
    }

    /// The exact text the procedure writes.
    pub open spec fn out(&self) -> Seq<char> {
        rnodes_out(self.nodes@)
    }
}

/// Writes one whole resolved attribute through the rendering
/// capabilities.
fn render_attr(a: &RAttr, out: &mut String)
    requires
        a.wf(),
    ensures
        final(out)@ == old(out)@ + whole_attr_out(a.name.0@, attr_value_v(a.value)),
{
    match &a.value {
        AttrValue::Text(s) => {
            ToWholeHtmlAttr::fmt(s, &a.name, out);
        },
        AttrValue::NoSpec(ns) => {
            ToWholeHtmlAttr::fmt(ns, &a.name, out);
        },
        AttrValue::Concat(cc) => {
            ToWholeHtmlAttr::fmt(cc, &a.name, out);
        },
        AttrValue::Bool(b) => {
            ToWholeHtmlAttr::fmt(b, &a.name, out);
        },
        AttrValue::OptText(o) => {
            ToWholeHtmlAttr::fmt(o, &a.name, out);
        },
    }
}

/// Writes one resolved node and, recursively, its children.
fn render_node(n: &RNode, out: &mut String)
    requires
        n.wf(),
    ensures
        final(out)@ == old(out)@ + rnode_out(*n),
    decreases *n,
{
    match n {
        RNode::Value(v) => {
            match v {
                Value::Text(s) => {
                    ToHtmlNode::fmt(s, out);
                },
                Value::Rendered(h) => {
                    ToHtmlNode::fmt(h, out);
                },
                Value::NoSpec(ns) => {
                    ToHtmlNode::fmt(ns, out);
                },
                Value::Bool(_) => {
                },
                Value::OptText(_) => {
                },
            }
            proof {
                assert(out@ =~= old(out)@ + rnode_out(*n));
            }
        },
        RNode::Element(e) => {
            let ghost base = out@;
            crate::push_char(out, '<');
            out.append(e.name.0.as_str());
            let ghost pairs = e.attrs@.map_values(|r: RAttr| rattr_v(r));
            let mut i: usize = 0;
            proof {
                assert(pairs_out(pairs.subrange(0, 0)) =~= Seq::<char>::empty());
                assert(out@ =~= base + seq!['<'] + e.name.0@ + pairs_out(pairs.subrange(0, 0)));
            }
            while i < e.attrs.len()
                invariant
                    0 <= i <= e.attrs@.len(),
                    pairs == e.attrs@.map_values(|r: RAttr| rattr_v(r)),
                    forall|j: int| 0 <= j < e.attrs@.len() ==> (#[trigger] e.attrs@[j]).wf(),
                    out@ == base + seq!['<'] + e.name.0@ + pairs_out(
                        pairs.subrange(0, i as int),
                    ),
                decreases e.attrs@.len() - i,
            {
                render_attr(&e.attrs[i], out);
                proof {
                    lemma_pairs_out_push(pairs.subrange(0, i as int), pairs[i as int]);
                    assert(pairs.subrange(0, i + 1 as int) =~= pairs.subrange(0, i as int).push(
                        pairs[i as int],
                    ));
                }
                i += 1;
            }
            proof {
                assert(pairs.subrange(0, pairs.len() as int) =~= pairs);
            }
            match &e.children {
                None => {
                    proof {
                        reveal_strlit("/>");
                    }
                    out.append("/>");
                    proof {
                        assert(out@ =~= base + rnode_out(*n));
                    }
                },
                Some(cs) => {
                    crate::push_char(out, '>');
                    let ghost inner_base = out@;
                    let mut k: usize = 0;
                    proof {
                        assert(rnodes_out(cs@.subrange(0, 0)) =~= Seq::<char>::empty());
                        assert(out@ =~= inner_base + rnodes_out(cs@.subrange(0, 0)));
                    }
                    while k < cs.len()
                        invariant
                            0 <= k <= cs@.len(),
                            *n == RNode::Element(*e),
                            e.children == Some(*cs),
                            forall|j: int| 0 <= j < cs@.len() ==> (#[trigger] cs@[j]).wf(),
                            out@ == inner_base + rnodes_out(cs@.subrange(0, k as int)),
                        decreases cs@.len() - k,
                    {
                        proof {
                            broadcast use vstd::std_specs::vec::group_vec_axioms;
                            broadcast use vstd::seq::group_seq_axioms;

                            assert((*n)->Element_0 == *e);
                            assert(decreases_to!(*n => (*n)->Element_0));
                            assert(decreases_to!(*e => e.children));
                            assert(e.children->0 == *cs);
                            assert(decreases_to!(e.children => e.children->0));
                            assert(decreases_to!(*cs => cs@));
                            assert(decreases_to!(cs@ => cs@[k as int]));
                        }
                        render_node(&cs[k], out);
                        proof {
                            lemma_rnodes_out_push(cs@.subrange(0, k as int), cs@[k as int]);
                            assert(cs@.subrange(0, k + 1 as int) =~= cs@.subrange(
                                0,
                                k as int,
                            ).push(cs@[k as int]));
                        }
                        k += 1;
                    }
                    proof {
                        assert(cs@.subrange(0, cs@.len() as int) =~= cs@);
                    }
                    crate::push_char(out, '<');
                    crate::push_char(out, '/');
                    out.append(e.name.0.as_str());
                    crate::push_char(out, '>');
                    proof {
                        assert(out@ =~= base + rnode_out(*n));
                    }
                },
            }
        },
    }
}

/// Appending one pair appends its fragment.
proof fn lemma_pairs_out_push(rs: Seq<(Seq<char>, AttrValV)>, p: (Seq<char>, AttrValV))
    ensures
        pairs_out(rs.push(p)) == pairs_out(rs) + whole_attr_out(p.0, p.1),
    decreases rs.len(),
{
    if rs.len() == 0 {
        assert(rs.push(p).drop_first() =~= rs);
        assert(pairs_out(rs.push(p)) =~= pairs_out(rs) + whole_attr_out(p.0, p.1));
    } else {
        lemma_pairs_out_push(rs.drop_first(), p);
        assert(rs.push(p).drop_first() =~= rs.drop_first().push(p));
        assert(pairs_out(rs.push(p)) =~= pairs_out(rs) + whole_attr_out(p.0, p.1));
    }
}

/// Appending one node appends its text.
proof fn lemma_rnodes_out_push(ns: Seq<RNode>, n: RNode)
    ensures
        rnodes_out(ns.push(n)) == rnodes_out(ns) + rnode_out(n),
    decreases ns.len(),
{
    if ns.len() == 0 {
        assert(ns.push(n).drop_first() =~= ns);
        assert(rnodes_out(ns.push(n)) =~= rnodes_out(ns) + rnode_out(n));
    } else {
        lemma_rnodes_out_push(ns.drop_first(), n);
        assert(ns.push(n).drop_first() =~= ns.drop_first().push(n));
        assert(rnodes_out(ns.push(n)) =~= rnodes_out(ns) + rnode_out(n));
    }
}

impl Html {
    /// Writes the procedure's markup text onto `out`.
    ///
    /// Rendering into an owned string buffer cannot fail, and the text
    /// written is a function of the procedure alone, so two renders of
    /// one procedure write byte-identical output.
    pub fn render(&self, out: &mut String)
        requires
            self.wf(),
        ensures
            final(out)@ == old(out)@ + self.out(),
    {
        let ghost base = out@;
        let mut i: usize = 0;
        proof {
            assert(rnodes_out(self.nodes@.subrange(0, 0)) =~= Seq::<char>::empty());
            assert(out@ =~= base + rnodes_out(self.nodes@.subrange(0, 0)));
        }
        while i < self.nodes.len()
            invariant
                0 <= i <= self.nodes@.len(),
                self.wf(),
                out@ == base + rnodes_out(self.nodes@.subrange(0, i as int)),
            decreases self.nodes@.len() - i,
        {
            render_node(&self.nodes[i], out);
            proof {
                lemma_rnodes_out_push(self.nodes@.subrange(0, i as int), self.nodes@[i as int]);
                assert(self.nodes@.subrange(0, i + 1 as int) =~= self.nodes@.subrange(
                    0,
                    i as int,
                ).push(self.nodes@[i as int]));
            }
            i += 1;
        }
        proof {
            assert(self.nodes@.subrange(0, self.nodes@.len() as int) =~= self.nodes@);
        }
    }

    /// Renders the procedure into a fresh string.
    pub fn render_to_string(&self) -> (r: String)
        requires
            self.wf(),
        ensures
            r@ == self.out(),
    {
        let mut out = String::new();
        self.render(&mut out);
        out
    }
}

/// The name of the attribute an id marker synthesizes.
pub open spec fn id_name() -> Seq<char> {
    seq!['i', 'd']
}

/// The name of the attribute class markers synthesize or merge into.
pub open spec fn class_name() -> Seq<char> {
    seq!['c', 'l', 'a', 's', 's']
}

/// The names of a resolved attribute list, in order.
pub open spec fn names_of(rs: Seq<(Seq<char>, AttrValV)>) -> Seq<Seq<char>> {
    rs.map_values(|p: (Seq<char>, AttrValV)| p.0)
}

/// The class marker names joined by single spaces, in order.
pub open spec fn join_classes(cs: Seq<Seq<char>>) -> Seq<char>
    decreases cs.len(),
{
    if cs.len() == 0 {
        Seq::empty()
    } else if cs.len() == 1 {
        cs[0]
    } else {
        cs[0] + seq![' '] + join_classes(cs.drop_first())
    }
}

/// Joining one more class appends a space and the name (or is the name
/// alone if there were none).
pub proof fn lemma_join_classes_push(cs: Seq<Seq<char>>, n: Seq<char>)
    ensures
        join_classes(cs.push(n)) == if cs.len() == 0 {
            n
        } else {
            join_classes(cs) + seq![' '] + n
        },
    decreases cs.len(),
{
    if cs.len() == 0 {
        assert(cs.push(n)[0] =~= n);
        assert(join_classes(cs.push(n)) =~= n);
    } else if cs.len() == 1 {
        assert(cs.push(n).drop_first() =~= cs.drop_first().push(n));
        assert(cs.push(n).drop_first() =~= seq![n]);
        assert(cs.push(n)[0] == cs[0]);
        assert(join_classes(seq![n]) =~= n);
        assert(join_classes(cs.push(n)) =~= cs[0] + seq![' '] + n);
        assert(join_classes(cs) =~= cs[0]);
    } else {
        lemma_join_classes_push(cs.drop_first(), n);
        assert(cs.push(n).drop_first() =~= cs.drop_first().push(n));
        assert(join_classes(cs.push(n)) =~= join_classes(cs) + seq![' '] + n);
    }
}

/// Joined valid names contain no special characters.
pub proof fn lemma_join_classes_no_special(cs: Seq<Seq<char>>)
    requires
        forall|j: int| 0 <= j < cs.len() ==> crate::parse::valid_name(#[trigger] cs[j]),
    ensures
        no_special(join_classes(cs)),
    decreases cs.len(),
{
    if cs.len() == 0 {
    } else if cs.len() == 1 {
        crate::parse::lemma_valid_name_no_special(cs[0]);
    } else {
        crate::parse::lemma_valid_name_no_special(cs[0]);
        lemma_join_classes_no_special(cs.drop_first());
        let head = cs[0] + seq![' '];
        assert forall|i: int|
            0 <= i < join_classes(cs).len() implies !crate::is_special_char(
            #[trigger] join_classes(cs)[i],
        ) by {
            if i < cs[0].len() {
                assert(join_classes(cs)[i] == cs[0][i]);
            } else if i == cs[0].len() {
                assert(join_classes(cs)[i] == ' ');
            } else {
                assert(join_classes(cs)[i] == join_classes(cs.drop_first())[i - head.len()]);
            }
        }
    }
}

/// The resolved form of a static attribute value: an absent value is
/// presence-true; a pre-validated value must really be special-free; a
/// pre-rendered value cannot stand as an attribute value.
pub open spec fn static_value_v(ov: Option<Value>) -> Option<AttrValV> {
    match ov {
        None => Some(AttrValV::Bool(true)),
        Some(Value::Text(s)) => Some(AttrValV::Text(s@)),
        Some(Value::NoSpec(ns)) => if no_special(ns.0@) {
            Some(AttrValV::NoSpec(ns.0@))
        } else {
            None
        },
        Some(Value::Bool(b)) => Some(AttrValV::Bool(b)),
        Some(Value::OptText(o)) => Some(
            AttrValV::OptText(
                match o {
                    Some(s) => Some(s@),
                    None => None,
                },
            ),
        ),
        Some(Value::Rendered(_)) => None,
    }
}

/// Folds the static attributes into resolved pairs, in source order.
/// The first attribute whose name was already taken is a duplicate
/// error at its position; a value that cannot stand as an attribute
/// value — or, when class markers exist, an explicit `class` value that
/// is not plain or pre-validated text — is an error at its position.
pub open spec fn spec_fold_statics(
    shapes: Seq<crate::parse::AttrShape>,
    has_classes: bool,
    acc: Seq<(Seq<char>, AttrValV)>,
) -> Result<Seq<(Seq<char>, AttrValV)>, (int, ErrorKind)>
    decreases shapes.len(),
{
    if shapes.len() == 0 {
        Ok(acc)
    } else {
        let a = shapes[0];
        if a.is_dyn {
            spec_fold_statics(shapes.drop_first(), has_classes, acc)
        } else if names_of(acc).contains(a.name_text) {
            Err((a.lo, ErrorKind::DuplicateAttribute))
        } else {
            match static_value_v(a.value) {
                None => Err((a.lo, ErrorKind::BadAttrValue)),
                Some(v) => if a.name_text == class_name() && has_classes && !(v is Text
                    || v is NoSpec) {
                    Err((a.lo, ErrorKind::BadAttrValue))
                } else {
                    spec_fold_statics(
                        shapes.drop_first(),
                        has_classes,
                        acc.push((a.name_text, v)),
                    )
                },
            }
        }
    }
}

/// Folds the id marker in as a synthesized `id` attribute; an explicit
/// `id` attribute already present is a duplicate error at the marker.
pub open spec fn spec_fold_id(
    rs: Seq<(Seq<char>, AttrValV)>,
    id: Option<(Seq<char>, int)>,
) -> Result<Seq<(Seq<char>, AttrValV)>, (int, ErrorKind)> {
    match id {
        None => Ok(rs),
        Some((n, p)) => if names_of(rs).contains(id_name()) {
            Err((p, ErrorKind::DuplicateAttribute))
        } else {
            Ok(rs.push((id_name(), AttrValV::Text(n))))
        },
    }
}

/// The first index whose pair bears the given name, or the length.
pub open spec fn find_name(rs: Seq<(Seq<char>, AttrValV)>, n: Seq<char>) -> int
    decreases rs.len(),
{
    if rs.len() == 0 {
        0
    } else if rs[0].0 == n {
        0
    } else {
        1 + find_name(rs.drop_first(), n)
    }
}

/// `find_name` finds the first occurrence, and misses exactly when the
/// name is absent.
pub proof fn lemma_find_name(rs: Seq<(Seq<char>, AttrValV)>, n: Seq<char>)
    ensures
        0 <= find_name(rs, n) <= rs.len(),
        find_name(rs, n) < rs.len() ==> rs[find_name(rs, n)].0 == n,
        forall|j: int| 0 <= j < find_name(rs, n) ==> (#[trigger] rs[j]).0 != n,
        (find_name(rs, n) < rs.len()) <==> names_of(rs).contains(n),
    decreases rs.len(),
{
    assert(names_of(rs).len() == rs.len());
    assert(forall|j: int| 0 <= j < rs.len() ==> names_of(rs)[j] == (#[trigger] rs[j]).0);
    if rs.len() == 0 {
    } else if rs[0].0 == n {
    } else {
        lemma_find_name(rs.drop_first(), n);
        let k = find_name(rs, n);
        assert(forall|j: int|
            1 <= j < rs.len() ==> (#[trigger] rs[j]) == rs.drop_first()[j - 1]);
        if find_name(rs.drop_first(), n) < rs.drop_first().len() {
            assert(rs[k].0 == n);
        } else {
            assert(!names_of(rs.drop_first()).contains(n));
            if names_of(rs).contains(n) {
                let w = choose|w: int| 0 <= w < rs.len() && names_of(rs)[w] == n;
                assert(rs[w].0 == n);
                assert(w != 0);
                assert(names_of(rs.drop_first())[w - 1] == n);
            }
        }
    }
}

/// Merges the joined markers into an explicit class value: the caller
/// value comes first (escaped), then a space, then the markers — or the
/// markers alone if the caller value is empty.
pub open spec fn class_merge(v: AttrValV, joined: Seq<char>) -> AttrValV {
    match v {
        AttrValV::Text(s) => AttrValV::Concat(s, joined),
        AttrValV::NoSpec(s) => AttrValV::Concat(s, joined),
        _ => v,
    }
}

/// Folds the class markers in: merged into the explicit `class`
/// attribute in place if one exists, appended as a synthesized
/// pre-validated `class` attribute otherwise.
pub open spec fn spec_fold_classes(
    rs: Seq<(Seq<char>, AttrValV)>,
    classes: Seq<Seq<char>>,
) -> Seq<(Seq<char>, AttrValV)> {
    if classes.len() == 0 {
        rs
    } else {
        let joined = join_classes(classes);
        let k = find_name(rs, class_name());
        if k < rs.len() {
            rs.update(k, (class_name(), class_merge(rs[k].1, joined)))
        } else {
            rs.push((class_name(), AttrValV::NoSpec(joined)))
        }
    }
}

/// The name a dynamic attribute resolves to: its value must be plain or
/// pre-validated text, free of special characters.
pub open spec fn dyn_name_v(v: Value) -> Option<Seq<char>> {
    match v {
        Value::Text(s) => if no_special(s@) {
            Some(s@)
        } else {
            None
        },
        Value::NoSpec(ns) => if no_special(ns.0@) {
            Some(ns.0@)
        } else {
            None
        },
        _ => None,
    }
}

/// Folds the dynamic attributes in, in source order, after the static
/// set is complete: a name that is not special-free text is an error at
/// the attribute; a name equal to any resolved static name (the
/// synthesized `id` and `class` included) is a duplicate error at the
/// attribute.
pub open spec fn spec_fold_dyns(
    shapes: Seq<crate::parse::AttrShape>,
    statics: Seq<Seq<char>>,
    acc: Seq<(Seq<char>, AttrValV)>,
) -> Result<Seq<(Seq<char>, AttrValV)>, (int, ErrorKind)>
    decreases shapes.len(),
{
    if shapes.len() == 0 {
        Ok(acc)
    } else {
        let a = shapes[0];
        if !a.is_dyn {
            spec_fold_dyns(shapes.drop_first(), statics, acc)
        } else {
            match dyn_name_v(a.name_val) {
                None => Err((a.lo, ErrorKind::BadDynName)),
                Some(n) => if statics.contains(n) {
                    Err((a.lo, ErrorKind::DuplicateAttribute))
                } else {
                    match static_value_v(a.value) {
                        None => Err((a.lo, ErrorKind::BadAttrValue)),
                        Some(v) => spec_fold_dyns(
                            shapes.drop_first(),
                            statics,
                            acc.push((n, v)),
                        ),
                    }
                },
            }
        }
    }
}

/// Resolves an element's whole attribute set: static attributes in
/// source order, then the synthesized `id`, then the `class` fold, then
/// the dynamic attributes in source order.
pub open spec fn spec_el_attrs(
    classes: Seq<Seq<char>>,
    id: Option<(Seq<char>, int)>,
    shapes: Seq<crate::parse::AttrShape>,
) -> Result<Seq<(Seq<char>, AttrValV)>, (int, ErrorKind)> {
    match spec_fold_statics(shapes, classes.len() > 0, Seq::empty()) {
        Err(e) => Err(e),
        Ok(statics) => match spec_fold_id(statics, id) {
            Err(e) => Err(e),
            Ok(with_id) => {
                let with_classes = spec_fold_classes(with_id, classes);
                spec_fold_dyns(shapes, names_of(with_classes), with_classes)
            },
        },
    }
}

/// The attribute shapes an element carries, or none.
pub open spec fn el_shapes(e: crate::parse::HtmlElement) -> Seq<crate::parse::AttrShape> {
    match e.attributes {
        Some(av) => av@.map_values(|a: crate::parse::Attribute| crate::parse::attr_shape(a)),
        None => Seq::empty(),
    }
}

/// The resolved attribute set of an element, or its first resolution
/// error.
pub open spec fn el_attrs_result(e: crate::parse::HtmlElement) -> Result<
    Seq<(Seq<char>, AttrValV)>,
    (int, ErrorKind),
> {
    spec_el_attrs(
        crate::parse::classes_shape(e.classes@),
        crate::parse::id_shape(e.id),
        el_shapes(e),
    )
}

/// Whether a resolved value's pre-validated parts really are
/// special-free.
pub open spec fn attr_value_wf(av: AttrValue) -> bool {
    match av {
        AttrValue::NoSpec(ns) => no_special(ns.0@),
        AttrValue::Concat(cc) => no_special(cc.1@),
        _ => true,
    }
}

/// Reports whether one of the first `upto` resolved attributes bears
/// the name `n`.
fn contains_name_upto(rv: &Vec<RAttr>, n: &str, upto: usize) -> (r: bool)
    requires
        upto <= rv@.len(),
    ensures
        r == exists|j: int| 0 <= j < upto && (#[trigger] rv@[j]).name.0@ == n@,
{
    let mut i: usize = 0;
    while i < upto
        invariant
            0 <= i <= upto <= rv@.len(),
            forall|j: int| 0 <= j < i ==> (#[trigger] rv@[j]).name.0@ != n@,
        decreases upto - i,
    {
        if crate::str_eq(rv[i].name.0.as_str(), n) {
            return true;
        }
        i += 1;
    }
    false
}

/// Converts a static attribute value into its resolved form, or reports
/// that the value cannot stand as an attribute value.
fn static_value(ov: &Option<Value>) -> (r: Option<AttrValue>)
    ensures
        match static_value_v(*ov) {
            None => r is None,
            Some(vv) => r matches Some(av) && attr_value_v(av) == vv && attr_value_wf(av),
        },
{
    match ov {
        None => Some(AttrValue::Bool(true)),
        Some(Value::Text(s)) => Some(AttrValue::Text(s.clone())),
        Some(Value::NoSpec(ns)) => {
            if crate::has_special_chars(ns.0.as_str()) {
                None
            } else {
                Some(AttrValue::NoSpec(NoSpecial(ns.0.clone())))
            }
        },
        Some(Value::Bool(b)) => Some(AttrValue::Bool(*b)),
        Some(Value::OptText(o)) => Some(
            AttrValue::OptText(
                match o {
                    Some(s) => Some(s.clone()),
                    None => None,
                },
            ),
        ),
        Some(Value::Rendered(_)) => None,
    }
}

/// Joins the class marker names with single spaces, in source order.
fn join_class_names(classes: &Vec<crate::parse::DotClass>) -> (r: String)
    ensures
        r@ == join_classes(crate::parse::classes_shape(classes@)),
{
    let ghost shape = crate::parse::classes_shape(classes@);
    let mut out = String::new();
    let mut i: usize = 0;
    proof {
        assert(shape.subrange(0, 0) =~= Seq::<Seq<char>>::empty());
        assert(out@ =~= join_classes(shape.subrange(0, 0)));
    }
    while i < classes.len()
        invariant
            0 <= i <= classes@.len(),
            shape == crate::parse::classes_shape(classes@),
            out@ == join_classes(shape.subrange(0, i as int)),
        decreases classes@.len() - i,
    {
        proof {
            reveal_strlit(" ");
        }
        if i > 0 {
            out.append(" ");
        }
        out.append(classes[i].name.as_str());
        proof {
            lemma_join_classes_push(shape.subrange(0, i as int), shape[i as int]);
            assert(shape.subrange(0, i + 1 as int) =~= shape.subrange(0, i as int).push(
                shape[i as int],
            ));
            assert(shape[i as int] == classes@[i as int].name.name@);
            assert(out@ =~= join_classes(shape.subrange(0, i + 1 as int)));
        }
        i += 1;
    }
    proof {
        assert(shape.subrange(0, shape.len() as int) =~= shape);
    }
    out
}

/// Finds the first resolved attribute bearing the name `n`, or the
/// length if none does.
fn find_name_idx(rv: &Vec<RAttr>, n: &str) -> (r: usize)
    ensures
        r == find_name(rv@.map_values(|x: RAttr| rattr_v(x)), n@),
{
    let ghost pairs = rv@.map_values(|x: RAttr| rattr_v(x));
    proof {
        lemma_find_name(pairs, n@);
    }
    let mut i: usize = 0;
    while i < rv.len()
        invariant
            0 <= i <= rv@.len(),
            pairs == rv@.map_values(|x: RAttr| rattr_v(x)),
            forall|j: int| 0 <= j < i ==> (#[trigger] pairs[j]).0 != n@,
        decreases rv@.len() - i,
    {
        if crate::str_eq(rv[i].name.0.as_str(), n) {
            proof {
                lemma_find_name(pairs, n@);
                assert(pairs[i as int].0 == n@);
            }
            return i;
        }
        i += 1;
    }
    proof {
        lemma_find_name(pairs, n@);
        if names_of(pairs).contains(n@) {
            let w = find_name(pairs, n@);
            assert(pairs[w].0 == n@);
        }
    }
    rv.len()
}

/// Resolves an element's attribute set: static attributes in source
/// order, the id marker folded in as `id`, the class markers folded
/// into `class`, then the dynamic attributes, each checked against the
/// static set.
pub fn write_el_attrs(element: &crate::parse::HtmlElement) -> (r: Result<Vec<RAttr>, CompileError>)
    requires
        element.wf(),
    ensures
        match el_attrs_result(*element) {
            Ok(pairs) => r matches Ok(rv) && rv@.map_values(|x: RAttr| rattr_v(x)) == pairs && (
            forall|j: int| 0 <= j < rv@.len() ==> (#[trigger] rv@[j]).wf()),
            Err((p, k)) => r matches Err(err) && err.pos == p && err.kind == k && err.context@
                =~= Seq::<crate::parse::Ctx>::empty(),
        },
{
    let ghost shapes = el_shapes(*element);
    let ghost classes_sh = crate::parse::classes_shape(element.classes@);
    let has_classes = element.classes.len() > 0;
    let mut rv: Vec<RAttr> = Vec::new();
    proof {
        assert(rv@.map_values(|x: RAttr| rattr_v(x)) =~= Seq::<(Seq<char>, AttrValV)>::empty());
        assert(shapes.skip(0) =~= shapes);
        reveal_strlit("class");
        assert("class"@ =~= class_name());
    }
    match &element.attributes {
        None => {
            proof {
                assert(shapes =~= Seq::<crate::parse::AttrShape>::empty());
            }
        },
        Some(attrs) => {
            let mut j: usize = 0;
            proof {
                assert(attrs@.map_values(|a: crate::parse::Attribute| crate::parse::attr_shape(a))
                    == shapes);
            }
            while j < attrs.len()
                invariant
                    0 <= j <= attrs@.len(),
                    element.wf(),
                    element.attributes == Some(*attrs),
                    shapes == el_shapes(*element),
                    classes_sh == crate::parse::classes_shape(element.classes@),
                    has_classes == (classes_sh.len() > 0),
                    classes_sh.len() == element.classes@.len(),
                    attrs@.map_values(|a: crate::parse::Attribute| crate::parse::attr_shape(a))
                        == shapes,
                    forall|k: int| 0 <= k < attrs@.len() ==> (#[trigger] attrs@[k]).wf(),
                    spec_fold_statics(shapes, has_classes, Seq::empty()) == spec_fold_statics(
                        shapes.skip(j as int),
                        has_classes,
                        rv@.map_values(|x: RAttr| rattr_v(x)),
                    ),
                    forall|k: int| 0 <= k < rv@.len() ==> (#[trigger] rv@[k]).wf(),
                    has_classes ==> forall|k: int|
                        0 <= k < rv@.len() && (#[trigger] rv@[k]).name.0@ == class_name() ==> (
                        rv@[k].value is Text || rv@[k].value is NoSpec),
                decreases attrs@.len() - j,
            {
                proof {
                    reveal_strlit("class");
                    assert("class"@ =~= class_name());
                    assert(shapes[j as int] == crate::parse::attr_shape(attrs@[j as int]));
                    assert(shapes.skip(j as int)[0] == shapes[j as int]);
                    assert(shapes.skip(j as int).drop_first() =~= shapes.skip(j + 1 as int));
                }
                match &attrs[j] {
                    crate::parse::Attribute::Dyn(_) => {},
                    crate::parse::Attribute::Static(sa) => {
                        let ghost pairs0 = rv@.map_values(|x: RAttr| rattr_v(x));
                        if contains_name_upto(&rv, sa.name.as_str(), rv.len()) {
                            proof {
                                let w = choose|w: int|
                                    0 <= w < rv@.len() && rv@[w].name.0@ == sa.name.name@;
                                assert(names_of(pairs0)[w] == sa.name.name@);
                            }
                            return Err(CompileError::new(
                                sa.span.lo,
                                ErrorKind::DuplicateAttribute,
                            ));
                        }
                        proof {
                            if names_of(pairs0).contains(sa.name.name@) {
                                let w = choose|w: int|
                                    0 <= w < names_of(pairs0).len() && names_of(pairs0)[w]
                                        == sa.name.name@;
                                assert(rv@[w].name.0@ == sa.name.name@);
                            }
                        }
                        match static_value(&sa.value) {
                            None => {
                                return Err(CompileError::new(
                                    sa.span.lo,
                                    ErrorKind::BadAttrValue,
                                ));
                            },
                            Some(av) => {
                                let is_texty = match &av {
                                    AttrValue::Text(_) => true,
                                    AttrValue::NoSpec(_) => true,
                                    _ => false,
                                };
                                if has_classes && crate::str_eq(sa.name.as_str(), "class")
                                    && !is_texty {
                                    return Err(CompileError::new(
                                        sa.span.lo,
                                        ErrorKind::BadAttrValue,
                                    ));
                                }
                                proof {
                                    crate::parse::lemma_valid_name_no_special(sa.name.name@);
                                }
                                rv.push(RAttr { name: NoSpecial(sa.name.name.clone()), value: av });
                                proof {
                                    assert(rv@.map_values(|x: RAttr| rattr_v(x)) =~= pairs0.push(
                                        (shapes[j as int].name_text, attr_value_v(av)),
                                    ));
                                }
                            },
                        }
                    },
                }
                j += 1;
            }
            proof {
                assert(shapes.skip(attrs@.len() as int) =~= Seq::<crate::parse::AttrShape>::empty());
            }
        },
    }
    let ghost statics_pairs = rv@.map_values(|x: RAttr| rattr_v(x));
    proof {
        assert(spec_fold_statics(shapes, has_classes, Seq::empty()) == Ok::<
            _,
            (int, ErrorKind),
        >(statics_pairs));
    }
    match &element.id {
        None => {},
        Some(h) => {
            proof {
                reveal_strlit("id");
                assert("id"@ =~= id_name());
            }
            if contains_name_upto(&rv, "id", rv.len()) {
                proof {
                    let w = choose|w: int| 0 <= w < rv@.len() && rv@[w].name.0@ == "id"@;
                    assert(names_of(statics_pairs)[w] == id_name());
                }
                return Err(CompileError::new(h.span.lo, ErrorKind::DuplicateAttribute));
            }
            proof {
                if names_of(statics_pairs).contains(id_name()) {
                    let w = choose|w: int|
                        0 <= w < names_of(statics_pairs).len() && names_of(statics_pairs)[w]
                            == id_name();
                    assert(rv@[w].name.0@ == "id"@);
                }
                crate::parse::lemma_valid_name_no_special(h.name.name@);
            }
            let ghost pairs0 = rv@.map_values(|x: RAttr| rattr_v(x));
            rv.push(RAttr { name: NoSpecial("id".to_owned()), value: AttrValue::Text(h.name.name.clone()) });
            proof {
                assert(rv@.map_values(|x: RAttr| rattr_v(x)) =~= pairs0.push(
                    (id_name(), AttrValV::Text(h.name.name@)),
                ));
            }
        },
    }
    let ghost with_id_pairs = rv@.map_values(|x: RAttr| rattr_v(x));
    proof {
        assert(spec_fold_id(statics_pairs, crate::parse::id_shape(element.id)) == Ok::<
            _,
            (int, ErrorKind),
        >(with_id_pairs));
        assert(id_name().len() == 2 && class_name().len() == 5);
        assert(has_classes ==> forall|k: int|
            0 <= k < rv@.len() && (#[trigger] rv@[k]).name.0@ == class_name() ==> (
            rv@[k].value is Text || rv@[k].value is NoSpec));
    }
    if has_classes {
        let joined = join_class_names(&element.classes);
        proof {
            lemma_join_classes_no_special(classes_sh);
        }
        let k = find_name_idx(&rv, "class");
        proof {
            lemma_find_name(with_id_pairs, class_name());
        }
        let ghost pairs0 = with_id_pairs;
        if k < rv.len() {
            let payload: String = match &rv[k].value {
                AttrValue::Text(s) => s.clone(),
                AttrValue::NoSpec(ns) => ns.0.clone(),
                _ => {
                    proof {
                        assert(rv@[k as int].name.0@ == class_name());
                    }
                    unreached()
                },
            };
            let nm = NoSpecial(rv[k].name.0.clone());
            rv[k] = RAttr { name: nm, value: AttrValue::Concat(ClassConcat(payload, joined)) };
            proof {
                assert(rv@.map_values(|x: RAttr| rattr_v(x)) =~= pairs0.update(
                    k as int,
                    (class_name(), class_merge(pairs0[k as int].1, join_classes(classes_sh))),
                ));
            }
        } else {
            rv.push(RAttr {
                name: NoSpecial("class".to_owned()),
                value: AttrValue::NoSpec(NoSpecial(joined)),
            });
            proof {
                assert(rv@.map_values(|x: RAttr| rattr_v(x)) =~= pairs0.push(
                    (class_name(), AttrValV::NoSpec(join_classes(classes_sh))),
                ));
            }
        }
    }
    let ghost with_classes_pairs = rv@.map_values(|x: RAttr| rattr_v(x));
    let ghost statics_names = names_of(with_classes_pairs);
    proof {
        assert(spec_fold_classes(with_id_pairs, classes_sh) == with_classes_pairs);
    }
    let statics_len = rv.len();
    match &element.attributes {
        None => {},
        Some(attrs) => {
            let mut j: usize = 0;
            while j < attrs.len()
                invariant
                    0 <= j <= attrs@.len(),
                    statics_len <= rv@.len(),
                    element.attributes == Some(*attrs),
                    shapes == el_shapes(*element),
                    classes_sh == crate::parse::classes_shape(element.classes@),
                    has_classes == (classes_sh.len() > 0),
                    spec_fold_statics(shapes, has_classes, Seq::empty()) == Ok::<
                        _,
                        (int, ErrorKind),
                    >(statics_pairs),
                    spec_fold_id(statics_pairs, crate::parse::id_shape(element.id)) == Ok::<
                        _,
                        (int, ErrorKind),
                    >(with_id_pairs),
                    spec_fold_classes(with_id_pairs, classes_sh) == with_classes_pairs,
                    attrs@.map_values(|a: crate::parse::Attribute| crate::parse::attr_shape(a))
                        == shapes,
                    statics_len == with_classes_pairs.len(),
                    statics_names == names_of(with_classes_pairs),
                    rv@.subrange(0, statics_len as int).map_values(|x: RAttr| rattr_v(x))
                        == with_classes_pairs,
                    spec_fold_dyns(shapes, statics_names, with_classes_pairs) == spec_fold_dyns(
                        shapes.skip(j as int),
                        statics_names,
                        rv@.map_values(|x: RAttr| rattr_v(x)),
                    ),
                    forall|k: int| 0 <= k < rv@.len() ==> (#[trigger] rv@[k]).wf(),
                decreases attrs@.len() - j,
            {
                proof {
                    assert(shapes[j as int] == crate::parse::attr_shape(attrs@[j as int]));
                    assert(shapes.skip(j as int)[0] == shapes[j as int]);
                    assert(shapes.skip(j as int).drop_first() =~= shapes.skip(j + 1 as int));
                }
                match &attrs[j] {
                    crate::parse::Attribute::Static(_) => {},
                    crate::parse::Attribute::Dyn(d) => {
                        let name_str: String = match &d.name {
                            Value::Text(s) => {
                                if crate::has_special_chars(s.as_str()) {
                                    return Err(CompileError::new(
                                        d.span.lo,
                                        ErrorKind::BadDynName,
                                    ));
                                }
                                s.clone()
                            },
                            Value::NoSpec(ns) => {
                                if crate::has_special_chars(ns.0.as_str()) {
                                    return Err(CompileError::new(
                                        d.span.lo,
                                        ErrorKind::BadDynName,
                                    ));
                                }
                                ns.0.clone()
                            },
                            _ => {
                                return Err(CompileError::new(d.span.lo, ErrorKind::BadDynName));
                            },
                        };
                        let ghost n = name_str@;
                        if contains_name_upto(&rv, name_str.as_str(), statics_len) {
                            proof {
                                let w = choose|w: int|
                                    0 <= w < statics_len && (#[trigger] rv@[w]).name.0@ == n;
                                assert((rv@.subrange(0, statics_len as int))[w].name.0@ == n);
                                assert(names_of(with_classes_pairs)[w] == n);
                            }
                            return Err(CompileError::new(
                                d.span.lo,
                                ErrorKind::DuplicateAttribute,
                            ));
                        }
                        proof {
                            if statics_names.contains(n) {
                                let w = choose|w: int|
                                    0 <= w < statics_names.len() && statics_names[w] == n;
                                assert((rv@.subrange(0, statics_len as int))[w].name.0@ == n);
                                assert(rv@[w].name.0@ == n);
                            }
                        }
                        match static_value(&d.value) {
                            None => {
                                return Err(CompileError::new(
                                    d.span.lo,
                                    ErrorKind::BadAttrValue,
                                ));
                            },
                            Some(av) => {
                                let ghost pairs0 = rv@.map_values(|x: RAttr| rattr_v(x));
                                let ghost pre = rv@;
                                rv.push(RAttr { name: NoSpecial(name_str), value: av });
                                proof {
                                    assert(rv@.map_values(|x: RAttr| rattr_v(x)) =~= pairs0.push(
                                        (n, attr_value_v(av)),
                                    ));
                                    assert(rv@.subrange(0, statics_len as int) =~= pre.subrange(
                                        0,
                                        statics_len as int,
                                    ));
                                }
                            },
                        }
                    },
                }
                j += 1;
            }
            proof {
                assert(shapes.skip(attrs@.len() as int) =~= Seq::<crate::parse::AttrShape>::empty());
            }
        },
    }
    Ok(rv)
}

/// The text a parsed node compiles to and then writes, or its first
/// compile error: an embedded value must be renderable as a node; an
/// element resolves its attributes and, recursively, its children.
pub open spec fn node_result(n: crate::parse::HtmlNode) -> Result<Seq<char>, (int, ErrorKind)>
    decreases n,
    via node_result_dec
{
    match n {
        crate::parse::HtmlNode::Arbitrary(v, sp) => if is_node_value(v) {
            Ok(node_value_out(v))
        } else {
            Err((sp.lo as int, ErrorKind::BadNodeValue))
        },
        crate::parse::HtmlNode::Element(el) => match el_attrs_result(el) {
            Err(e) => Err(e),
            Ok(rs) => match el.children {
                None => Ok(seq!['<'] + el.name.name@ + pairs_out(rs) + seq!['/', '>']),
                Some(ns) => match nodes_result(ns.nodes@) {
                    Err(e) => Err(e),
                    Ok(inner) => Ok(
                        seq!['<'] + el.name.name@ + pairs_out(rs) + seq!['>'] + inner + seq![
                            '<',
                            '/',
                        ] + el.name.name@ + seq!['>'],
                    ),
                },
            },
        },
    }
}

/// The text a parsed node sequence compiles to and then writes, in
/// order, or the first compile error among its nodes.
pub open spec fn nodes_result(ns: Seq<crate::parse::HtmlNode>) -> Result<
    Seq<char>,
    (int, ErrorKind),
>
    decreases ns,
    via nodes_result_dec
{
    if ns.len() == 0 {
        Ok(Seq::empty())
    } else {
        match node_result(ns[0]) {
            Err(e) => Err(e),
            Ok(s) => match nodes_result(ns.drop_first()) {
                Err(e) => Err(e),
                Ok(rest) => Ok(s + rest),
            },
        }
    }
}

#[via_fn]
proof fn node_result_dec(n: crate::parse::HtmlNode) {
    broadcast use vstd::std_specs::vec::group_vec_axioms;
    broadcast use vstd::seq::group_seq_axioms;

    if n is Element {
        let el = n->Element_0;
        assert(decreases_to!(n => n->Element_0));
        if el.children is Some {
            let ns = el.children->0;
            assert(decreases_to!(el => el.children));
            assert(decreases_to!(el.children => el.children->0));
            assert(decreases_to!(ns => ns.nodes));
            assert(decreases_to!(ns.nodes => ns.nodes@));
        }
    }
}

#[via_fn]
proof fn nodes_result_dec(ns: Seq<crate::parse::HtmlNode>) {
    broadcast use vstd::seq::group_seq_axioms;

    if ns.len() > 0 {
        assert(decreases_to!(ns => ns[0]));
        assert(ns.drop_first().len() < ns.len());
        assert(decreases_to!(ns => ns.drop_first()));
    }
}

/// Compiling one more node appends its text, or surfaces its error
/// after the earlier nodes succeeded.
pub proof fn lemma_nodes_result_push(pre: Seq<crate::parse::HtmlNode>, n: crate::parse::HtmlNode)
    ensures
        nodes_result(pre.push(n)) == (match nodes_result(pre) {
            Err(e) => Err(e),
            Ok(a) => match node_result(n) {
                Err(e) => Err::<Seq<char>, (int, ErrorKind)>(e),
                Ok(s) => Ok(a + s),
            },
        }),
    decreases pre.len(),
{
    if pre.len() == 0 {
        assert(pre.push(n)[0] == n);
        assert(pre.push(n).drop_first() =~= pre);
        match node_result(n) {
            Err(e) => {},
            Ok(s) => {
                assert(Seq::<char>::empty() + s =~= s);
                assert(s + Seq::<char>::empty() =~= s);
            },
        }
    } else {
        lemma_nodes_result_push(pre.drop_first(), n);
        assert(pre.push(n)[0] == pre[0]);
        assert(pre.push(n).drop_first() =~= pre.drop_first().push(n));
        match nodes_result(pre) {
            Err(e) => {},
            Ok(a) => {
                match node_result(n) {
                    Err(e) => {},
                    Ok(s) => {
                        let s0 = node_result(pre[0])->Ok_0;
                        let rest = nodes_result(pre.drop_first())->Ok_0;
                        assert(s0 + (rest + s) =~= (s0 + rest) + s);
                    },
                }
            },
        }
    }
}

/// If the first `i` nodes compile and node `i` fails, the whole
/// sequence fails with node `i`'s error.
pub proof fn lemma_nodes_result_err_prefix(
    ns: Seq<crate::parse::HtmlNode>,
    i: int,
    e: (int, ErrorKind),
)
    requires
        0 <= i < ns.len(),
        nodes_result(ns.subrange(0, i)) is Ok,
        node_result(ns[i]) == Err::<Seq<char>, (int, ErrorKind)>(e),
    ensures
        nodes_result(ns) == Err::<Seq<char>, (int, ErrorKind)>(e),
    decreases i,
{
    if i == 0 {
    } else {
        assert(ns.subrange(0, i)[0] == ns[0]);
        assert(nodes_result(ns.subrange(0, i)) is Ok);
        assert(node_result(ns[0]) is Ok);
        assert(ns.subrange(0, i).drop_first() =~= ns.drop_first().subrange(0, i - 1));
        assert(nodes_result(ns.drop_first().subrange(0, i - 1)) is Ok);
        assert(ns.drop_first()[i - 1] == ns[i]);
        lemma_nodes_result_err_prefix(ns.drop_first(), i - 1, e);
    }
}

/// Compiles a sequence of parsed nodes into resolved nodes.
fn write_node_list(nodes: &Vec<crate::parse::HtmlNode>) -> (r: Result<Vec<RNode>, CompileError>)
    requires
        forall|j: int| 0 <= j < nodes@.len() ==> (#[trigger] nodes@[j]).wf(),
    ensures
        match nodes_result(nodes@) {
            Ok(s) => r matches Ok(rv) && rnodes_out(rv@) == s && (forall|j: int|
                0 <= j < rv@.len() ==> (#[trigger] rv@[j]).wf()),
            Err((p, k)) => r matches Err(err) && err.pos == p && err.kind == k && err.context@
                =~= Seq::<crate::parse::Ctx>::empty(),
        },
    decreases nodes@,
{
    let mut rv: Vec<RNode> = Vec::new();
    let mut i: usize = 0;
    proof {
        assert(nodes@.subrange(0, 0) =~= Seq::<crate::parse::HtmlNode>::empty());
        assert(rnodes_out(rv@) =~= Seq::<char>::empty());
    }
    while i < nodes.len()
        invariant
            0 <= i <= nodes@.len(),
            forall|j: int| 0 <= j < nodes@.len() ==> (#[trigger] nodes@[j]).wf(),
            nodes_result(nodes@.subrange(0, i as int)) == Ok::<_, (int, ErrorKind)>(
                rnodes_out(rv@),
            ),
            forall|j: int| 0 <= j < rv@.len() ==> (#[trigger] rv@[j]).wf(),
        decreases nodes@.len() - i,
    {
        proof {
            broadcast use vstd::std_specs::vec::group_vec_axioms;
            broadcast use vstd::seq::group_seq_axioms;

            assert(decreases_to!(nodes@ => nodes@[i as int]));
        }
        match write_node(&nodes[i]) {
            Ok(rn) => {
                let ghost pre = rv@;
                rv.push(rn);
                proof {
                    lemma_nodes_result_push(nodes@.subrange(0, i as int), nodes@[i as int]);
                    lemma_rnodes_out_push(pre, rn);
                    assert(nodes@.subrange(0, i + 1 as int) =~= nodes@.subrange(0, i as int).push(
                        nodes@[i as int],
                    ));
                }
            },
            Err(err) => {
                proof {
                    let e = (err.pos as int, err.kind);
                    lemma_nodes_result_err_prefix(nodes@, i as int, e);
                }
                return Err(err);
            },
        }
        i += 1;
    }
    proof {
        assert(nodes@.subrange(0, nodes@.len() as int) =~= nodes@);
    }
    Ok(rv)
}

/// Compiles one parsed node into a resolved node: checks that an
/// embedded value can render as a node, resolves an element's
/// attributes, and recurses into its children.
pub fn write_node(node: &crate::parse::HtmlNode) -> (r: Result<RNode, CompileError>)
    requires
        node.wf(),
    ensures
        match node_result(*node) {
            Ok(s) => r matches Ok(rn) && rn.wf() && rnode_out(rn) == s,
            Err((p, k)) => r matches Err(err) && err.pos == p && err.kind == k && err.context@
                =~= Seq::<crate::parse::Ctx>::empty(),
        },
    decreases *node,
{
    match node {
        crate::parse::HtmlNode::Arbitrary(v, sp) => {
            let ok = match v {
                Value::Text(_) => true,
                Value::Rendered(_) => true,
                Value::NoSpec(ns) => !crate::has_special_chars(ns.0.as_str()),
                _ => false,
            };
            if ok {
                Ok(RNode::Value(v.dup()))
            } else {
                Err(CompileError::new(sp.lo, ErrorKind::BadNodeValue))
            }
        },
        crate::parse::HtmlNode::Element(el) => {
            let attrs = match write_el_attrs(el) {
                Ok(a) => a,
                Err(e) => {
                    return Err(e);
                },
            };
            let children: Option<Vec<RNode>> = match &el.children {
                None => None,
                Some(ns) => {
                    proof {
                        broadcast use vstd::std_specs::vec::group_vec_axioms;
                        broadcast use vstd::seq::group_seq_axioms;

                        assert(decreases_to!(*node => *el));
                        assert(decreases_to!(*el => el.children));
                        assert(el.children->0 == *ns);
                        assert(decreases_to!(el.children => el.children->0));
                        assert(decreases_to!(*ns => ns.nodes));
                        assert(decreases_to!(ns.nodes => ns.nodes@));
                    }
                    match write_node_list(&ns.nodes) {
                        Ok(cs) => Some(cs),
                        Err(e) => {
                            return Err(e);
                        },
                    }
                },
            };
            proof {
                crate::parse::lemma_valid_name_no_special(el.name.name@);
            }
            Ok(
                RNode::Element(
                    RElement { name: NoSpecial(el.name.name.clone()), attrs, children },
                ),
            )
        },
    }
}

/// Compiles a parsed node sequence into a rendering procedure.
pub fn html_impl(nodes: &crate::parse::HtmlNodes) -> (r: Result<Html, CompileError>)
    requires
        nodes.wf(),
    ensures
        match nodes_result(nodes.nodes@) {
            Ok(s) => r matches Ok(h) && h.wf() && h.out() == s,
            Err((p, k)) => r matches Err(err) && err.pos == p && err.kind == k && err.context@
                =~= Seq::<crate::parse::Ctx>::empty(),
        },
{
    match write_node_list(&nodes.nodes) {
        Ok(rv) => Ok(Html { nodes: rv }),
        Err(e) => Err(e),
    }
}

/// Compiles a template, given as a token sequence, into a rendering
/// procedure: parses the whole input as a node sequence, then resolves
/// it. Every compile error — syntactic or semantic — surfaces here,
/// before anything can be rendered.
pub fn html(tokens: &Vec<crate::parse::Token>) -> (r: Result<Html, CompileError>)
    ensures
        (r matches Ok(h) ==> h.wf()),
        (r matches Ok(h) ==> exists|ns: crate::parse::HtmlNodes|
            #[trigger] crate::parse::nodes_match(tokens@, 0, ns.nodes@, tokens@.len() as int)
                && ns.wf() && nodes_result(ns.nodes@) == Ok::<_, (int, ErrorKind)>(h.out())),
        (exists|ns: crate::parse::HtmlNodes|
            #[trigger] crate::parse::nodes_match(tokens@, 0, ns.nodes@, tokens@.len() as int)
                && ns.wf() && nodes_result(ns.nodes@) is Ok) ==> r is Ok,
        (r matches Err(err) ==> ((err.context@.len() > 0 && err.context@.last()
            == crate::parse::Ctx::Input) || (err.context@ =~= Seq::<crate::parse::Ctx>::empty()
            && exists|ns: crate::parse::HtmlNodes|
            #[trigger] crate::parse::nodes_match(tokens@, 0, ns.nodes@, tokens@.len() as int)
                && ns.wf() && nodes_result(ns.nodes@) == Err::<Seq<char>, _>(
                (err.pos as int, err.kind),
            )))),
        tokens@.len() == 0 ==> (r matches Ok(h) && h.out() == Seq::<char>::empty()),
{
    let ghost t = tokens@;
    match crate::parse::HtmlNodes::parse(tokens, 0) {
        Err(e) => {
            proof {
                if exists|ns: crate::parse::HtmlNodes|
                    #[trigger] crate::parse::nodes_match(t, 0, ns.nodes@, t.len() as int)
                        && ns.wf() && nodes_result(ns.nodes@) is Ok {
                    let ns = choose|ns: crate::parse::HtmlNodes|
                        #[trigger] crate::parse::nodes_match(t, 0, ns.nodes@, t.len() as int)
                            && ns.wf() && nodes_result(ns.nodes@) is Ok;
                    assert(crate::parse::nodes_match(t, 0, ns.nodes@, t.len() as int)
                        && crate::parse::nodes_stop(t, t.len() as int));
                    assert(false);
                }
            }
            Err(e.ctx(crate::parse::Ctx::Input))
        },
        Ok((nodes, end)) => {
            if end < tokens.len() {
                proof {
                    if exists|ns: crate::parse::HtmlNodes|
                        #[trigger] crate::parse::nodes_match(t, 0, ns.nodes@, t.len() as int)
                            && ns.wf() && nodes_result(ns.nodes@) is Ok {
                        let ns = choose|ns: crate::parse::HtmlNodes|
                            #[trigger] crate::parse::nodes_match(t, 0, ns.nodes@, t.len() as int)
                                && ns.wf() && nodes_result(ns.nodes@) is Ok;
                        crate::laws::lemma_nodes_match_agree(
                            t,
                            0,
                            nodes.nodes@,
                            end as int,
                            ns.nodes@,
                            t.len() as int,
                        );
                        assert(false);
                    }
                }
                Err(
                    CompileError::new(end, ErrorKind::UnexpectedToken).ctx(
                        crate::parse::Ctx::Input,
                    ),
                )
            } else {
                let r = html_impl(&nodes);
                proof {
                    assert(crate::parse::nodes_match(t, 0, nodes.nodes@, t.len() as int));
                    if r is Err {
                        if exists|ns: crate::parse::HtmlNodes|
                            #[trigger] crate::parse::nodes_match(t, 0, ns.nodes@, t.len() as int)
                                && ns.wf() && nodes_result(ns.nodes@) is Ok {
                            let ns = choose|ns: crate::parse::HtmlNodes|
                                #[trigger] crate::parse::nodes_match(
                                    t,
                                    0,
                                    ns.nodes@,
                                    t.len() as int,
                                ) && ns.wf() && nodes_result(ns.nodes@) is Ok;
                            crate::laws::lemma_nodes_match_agree(
                                t,
                                0,
                                nodes.nodes@,
                                t.len() as int,
                                ns.nodes@,
                                t.len() as int,
                            );
                            assert(false);
                        }
                    }
                }
                r
            }
        },
    }
}

/// Rendering is deterministic: the text a compiled procedure writes is a
/// function of the procedure alone, so two renders of the same procedure
/// with the same embedded values give byte-identical output.
pub proof fn lemma_render_deterministic(h: Html, first: Seq<char>, second: Seq<char>)
    requires
        first == h.out(),
        second == h.out(),
    ensures
        first == second,
{
}

} // verus!
