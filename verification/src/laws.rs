//! Laws of compilation: what holds of every attribute resolution, not
//! just of one run.

use vstd::prelude::*;

use crate::codegen::class_name;
use crate::codegen::find_name;
use crate::codegen::id_name;
use crate::codegen::join_classes;
use crate::codegen::lemma_find_name;
use crate::codegen::names_of;
use crate::codegen::spec_el_attrs;
use crate::codegen::spec_fold_classes;
use crate::codegen::spec_fold_dyns;
use crate::codegen::spec_fold_id;
use crate::codegen::spec_fold_statics;
use crate::codegen::static_value_v;
use crate::codegen::whole_attr_out;
use crate::codegen::AttrValV;
use crate::escaped;
use crate::parse::spec_markers;
use crate::parse::AttrShape;
use crate::parse::ErrorKind;
use crate::parse::Token;
use crate::whole_attr_frag;

verus! {

/// The resolved pair a static attribute becomes: its name and its
/// converted value.
pub open spec fn static_pair(a: AttrShape) -> (Seq<char>, AttrValV) {
    (
        a.name_text,
        match static_value_v(a.value) {
            Some(v) => v,
            None => AttrValV::Bool(false),
        },
    )
}

/// Folding statics succeeds when every attribute is static with a
/// renderable value and no two names collide (nor collide with what was
/// already resolved), and appends them in source order.
proof fn lemma_fold_statics_all_ok(
    shapes: Seq<AttrShape>,
    acc: Seq<(Seq<char>, AttrValV)>,
)
    requires
        forall|j: int| 0 <= j < shapes.len() ==> !(#[trigger] shapes[j]).is_dyn,
        forall|j: int| 0 <= j < shapes.len() ==> static_value_v(#[trigger] shapes[j].value) is Some,
        forall|j: int, k: int|
            0 <= j < k < shapes.len() ==> (#[trigger] shapes[j]).name_text != (
            #[trigger] shapes[k]).name_text,
        forall|j: int|
            0 <= j < shapes.len() ==> !names_of(acc).contains((#[trigger] shapes[j]).name_text),
    ensures
        spec_fold_statics(shapes, false, acc) == Ok::<_, (int, ErrorKind)>(
            acc + shapes.map_values(|a: AttrShape| static_pair(a)),
        ),
    decreases shapes.len(),
{
    if shapes.len() == 0 {
        assert(acc + shapes.map_values(|a: AttrShape| static_pair(a)) =~= acc);
    } else {
        let a = shapes[0];
        let acc2 = acc.push(static_pair(a));
        assert(!names_of(acc).contains(a.name_text));
        assert forall|j: int|
            0 <= j < shapes.drop_first().len() implies !names_of(acc2).contains(
            (#[trigger] shapes.drop_first()[j]).name_text,
        ) by {
            let b = shapes.drop_first()[j];
            assert(b == shapes[j + 1]);
            assert(b.name_text != a.name_text);
            if names_of(acc2).contains(b.name_text) {
                let w = choose|w: int|
                    0 <= w < names_of(acc2).len() && names_of(acc2)[w] == b.name_text;
                assert(w < acc.len());
                assert(names_of(acc)[w] == b.name_text);
            }
        }
        lemma_fold_statics_all_ok(shapes.drop_first(), acc2);
        assert(acc2 + shapes.drop_first().map_values(|x: AttrShape| static_pair(x)) =~= acc
            + shapes.map_values(|x: AttrShape| static_pair(x)));
    }
}

/// Folding dynamics over a list with no dynamic attribute changes
/// nothing.
proof fn lemma_fold_dyns_all_static(
    shapes: Seq<AttrShape>,
    statics: Seq<Seq<char>>,
    acc: Seq<(Seq<char>, AttrValV)>,
)
    requires
        forall|j: int| 0 <= j < shapes.len() ==> !(#[trigger] shapes[j]).is_dyn,
    ensures
        spec_fold_dyns(shapes, statics, acc) == Ok::<_, (int, ErrorKind)>(acc),
    decreases shapes.len(),
{
    if shapes.len() > 0 {
        lemma_fold_dyns_all_static(shapes.drop_first(), statics, acc);
    }
}

/// Every static attribute set with no name collision compiles, and its
/// attributes resolve exactly once each, in source order; rendering then
/// writes, for each one, a ` name="escaped-value"` fragment, a bare
/// ` name` for a true boolean, or nothing for a false boolean or an
/// absent optional, as `whole_attr_out` spells out.
pub proof fn lemma_static_attrs_resolve(shapes: Seq<AttrShape>)
    requires
        forall|j: int| 0 <= j < shapes.len() ==> !(#[trigger] shapes[j]).is_dyn,
        forall|j: int| 0 <= j < shapes.len() ==> static_value_v(#[trigger] shapes[j].value) is Some,
        forall|j: int, k: int|
            0 <= j < k < shapes.len() ==> (#[trigger] shapes[j]).name_text != (
            #[trigger] shapes[k]).name_text,
    ensures
        spec_el_attrs(Seq::empty(), None, shapes) == Ok::<_, (int, ErrorKind)>(
            shapes.map_values(|a: AttrShape| static_pair(a)),
        ),
        names_of(shapes.map_values(|a: AttrShape| static_pair(a))) == shapes.map_values(
            |a: AttrShape| a.name_text,
        ),
{
    assert(names_of(Seq::empty()).len() == 0);
    lemma_fold_statics_all_ok(shapes, Seq::empty());
    let pairs = shapes.map_values(|a: AttrShape| static_pair(a));
    assert(Seq::empty() + pairs =~= pairs);
    lemma_fold_dyns_all_static(shapes, names_of(pairs), pairs);
    assert(names_of(pairs) =~= shapes.map_values(|a: AttrShape| a.name_text));
}

/// An element with class markers and no explicit `class` attribute gets
/// one synthesized `class` attribute, appended last, whose rendered
/// value is exactly the marker names space-joined in source order.
pub proof fn lemma_class_markers_synthesized(
    rs: Seq<(Seq<char>, AttrValV)>,
    classes: Seq<Seq<char>>,
)
    requires
        classes.len() > 0,
        !names_of(rs).contains(class_name()),
    ensures
        spec_fold_classes(rs, classes) == rs.push(
            (class_name(), AttrValV::NoSpec(join_classes(classes))),
        ),
        whole_attr_out(class_name(), AttrValV::NoSpec(join_classes(classes)))
            == whole_attr_frag(class_name(), join_classes(classes)),
{
    lemma_find_name(rs, class_name());
}

/// An element with class markers and an explicit `class` attribute of
/// plain-text value `v` keeps that attribute in place, and its rendered
/// value becomes `v` (escaped), a single space, then the joined markers —
/// or the joined markers alone if `v` is empty.
pub proof fn lemma_class_markers_merged(
    rs: Seq<(Seq<char>, AttrValV)>,
    classes: Seq<Seq<char>>,
    v: Seq<char>,
)
    requires
        classes.len() > 0,
        names_of(rs).contains(class_name()),
        rs[find_name(rs, class_name())].1 == AttrValV::Text(v),
    ensures
        spec_fold_classes(rs, classes) == rs.update(
            find_name(rs, class_name()),
            (class_name(), AttrValV::Concat(v, join_classes(classes))),
        ),
        whole_attr_out(class_name(), AttrValV::Concat(v, join_classes(classes)))
            == whole_attr_frag(
            class_name(),
            if v.len() == 0 {
                join_classes(classes)
            } else {
                escaped(v) + seq![' '] + join_classes(classes)
            },
        ),
{
    lemma_find_name(rs, class_name());
}

/// The resolved pair a dynamic attribute becomes: its name value's text
/// and its converted value.
pub open spec fn dyn_pair(a: AttrShape) -> (Seq<char>, AttrValV) {
    (
        match crate::codegen::dyn_name_v(a.name_val) {
            Some(n) => n,
            None => Seq::empty(),
        },
        match static_value_v(a.value) {
            Some(v) => v,
            None => AttrValV::Bool(false),
        },
    )
}

/// The pairs the static attributes of a list resolve to, in source
/// order.
pub open spec fn static_pairs_of(shapes: Seq<AttrShape>) -> Seq<(Seq<char>, AttrValV)>
    decreases shapes.len(),
{
    if shapes.len() == 0 {
        Seq::empty()
    } else if shapes[0].is_dyn {
        static_pairs_of(shapes.drop_first())
    } else {
        seq![static_pair(shapes[0])] + static_pairs_of(shapes.drop_first())
    }
}

/// The pairs the dynamic attributes of a list resolve to, in source
/// order.
pub open spec fn dyn_pairs_of(shapes: Seq<AttrShape>) -> Seq<(Seq<char>, AttrValV)>
    decreases shapes.len(),
{
    if shapes.len() == 0 {
        Seq::empty()
    } else if !shapes[0].is_dyn {
        dyn_pairs_of(shapes.drop_first())
    } else {
        seq![dyn_pair(shapes[0])] + dyn_pairs_of(shapes.drop_first())
    }
}

/// The whole resolved static set of an element: static attributes, then
/// the synthesized `id`, then the `class` fold.
pub open spec fn resolved_statics(
    classes: Seq<Seq<char>>,
    id: Option<(Seq<char>, int)>,
    shapes: Seq<AttrShape>,
) -> Seq<(Seq<char>, AttrValV)> {
    spec_fold_classes(
        match id {
            Some((n, p)) => static_pairs_of(shapes).push((id_name(), AttrValV::Text(n))),
            None => static_pairs_of(shapes),
        },
        classes,
    )
}

/// The whole resolved attribute set of an element: the static set, then
/// the dynamic attributes.
pub open spec fn resolved_attrs(
    classes: Seq<Seq<char>>,
    id: Option<(Seq<char>, int)>,
    shapes: Seq<AttrShape>,
) -> Seq<(Seq<char>, AttrValV)> {
    resolved_statics(classes, id, shapes) + dyn_pairs_of(shapes)
}

/// The conditions under which an attribute list resolves: every static
/// value is renderable (and, beside class markers, an explicit `class`
/// value is plain or pre-validated text), static names are pairwise
/// distinct, the id marker does not collide with a static `id`, and
/// every dynamic name is special-free text colliding with no resolved
/// static name.
pub open spec fn attrs_resolvable(
    classes: Seq<Seq<char>>,
    id: Option<(Seq<char>, int)>,
    shapes: Seq<AttrShape>,
) -> bool {
    &&& (forall|j: int|
        0 <= j < shapes.len() && !(#[trigger] shapes[j]).is_dyn ==> static_value_v(
            shapes[j].value,
        ) is Some)
    &&& (classes.len() > 0 ==> (forall|j: int|
        0 <= j < shapes.len() && !(#[trigger] shapes[j]).is_dyn && shapes[j].name_text
            == class_name() ==> (static_value_v(shapes[j].value) matches Some(v) && (v is Text
            || v is NoSpec))))
    &&& (forall|j: int, k: int|
        0 <= j < k < shapes.len() && !(#[trigger] shapes[j]).is_dyn && !(
        #[trigger] shapes[k]).is_dyn ==> shapes[j].name_text != shapes[k].name_text)
    &&& (id is Some ==> !names_of(static_pairs_of(shapes)).contains(id_name()))
    &&& (forall|j: int|
        0 <= j < shapes.len() && (#[trigger] shapes[j]).is_dyn ==> (crate::codegen::dyn_name_v(
            shapes[j].name_val,
        ) matches Some(n) && static_value_v(shapes[j].value) is Some && !names_of(
            resolved_statics(classes, id, shapes),
        ).contains(n)))
}

/// Folding statics under the resolvable conditions succeeds and appends
/// the static pairs in source order.
proof fn lemma_fold_statics_ok(
    shapes: Seq<AttrShape>,
    has_classes: bool,
    acc: Seq<(Seq<char>, AttrValV)>,
)
    requires
        forall|j: int|
            0 <= j < shapes.len() && !(#[trigger] shapes[j]).is_dyn ==> static_value_v(
                shapes[j].value,
            ) is Some,
        has_classes ==> (forall|j: int|
            0 <= j < shapes.len() && !(#[trigger] shapes[j]).is_dyn && shapes[j].name_text
                == class_name() ==> (static_value_v(shapes[j].value) matches Some(v) && (
            v is Text || v is NoSpec))),
        forall|j: int, k: int|
            0 <= j < k < shapes.len() && !(#[trigger] shapes[j]).is_dyn && !(
            #[trigger] shapes[k]).is_dyn ==> shapes[j].name_text != shapes[k].name_text,
        forall|j: int|
            0 <= j < shapes.len() && !(#[trigger] shapes[j]).is_dyn ==> !names_of(acc).contains(
                shapes[j].name_text,
            ),
    ensures
        spec_fold_statics(shapes, has_classes, acc) == Ok::<_, (int, ErrorKind)>(
            acc + static_pairs_of(shapes),
        ),
    decreases shapes.len(),
{
    if shapes.len() == 0 {
        assert(acc + static_pairs_of(shapes) =~= acc);
    } else {
        let rest = shapes.drop_first();
        assert(forall|w: int| 0 <= w < rest.len() ==> #[trigger] rest[w] == shapes[w + 1]);
        if shapes[0].is_dyn {
            lemma_fold_statics_ok(rest, has_classes, acc);
            assert(acc + static_pairs_of(shapes) =~= acc + static_pairs_of(rest));
        } else {
            let a = shapes[0];
            let acc2 = acc.push(static_pair(a));
            assert forall|j: int|
                0 <= j < rest.len() && !(#[trigger] rest[j]).is_dyn implies !names_of(
                acc2,
            ).contains(rest[j].name_text) by {
                let b = rest[j];
                assert(b == shapes[j + 1]);
                assert(b.name_text != a.name_text);
                if names_of(acc2).contains(b.name_text) {
                    let w = choose|w: int|
                        0 <= w < names_of(acc2).len() && names_of(acc2)[w] == b.name_text;
                    assert(w < acc.len());
                    assert(names_of(acc)[w] == b.name_text);
                }
            }
            lemma_fold_statics_ok(rest, has_classes, acc2);
            assert(acc2 + static_pairs_of(rest) =~= acc + static_pairs_of(shapes));
        }
    }
}

/// Folding dynamics under the resolvable conditions succeeds and
/// appends the dynamic pairs in source order.
proof fn lemma_fold_dyns_ok(
    shapes: Seq<AttrShape>,
    statics: Seq<Seq<char>>,
    acc: Seq<(Seq<char>, AttrValV)>,
)
    requires
        forall|j: int|
            0 <= j < shapes.len() && (#[trigger] shapes[j]).is_dyn ==> (
            crate::codegen::dyn_name_v(shapes[j].name_val) matches Some(n) && static_value_v(
                shapes[j].value,
            ) is Some && !statics.contains(n)),
    ensures
        spec_fold_dyns(shapes, statics, acc) == Ok::<_, (int, ErrorKind)>(
            acc + dyn_pairs_of(shapes),
        ),
    decreases shapes.len(),
{
    if shapes.len() == 0 {
        assert(acc + dyn_pairs_of(shapes) =~= acc);
    } else {
        let rest = shapes.drop_first();
        assert(forall|w: int| 0 <= w < rest.len() ==> #[trigger] rest[w] == shapes[w + 1]);
        if !shapes[0].is_dyn {
            lemma_fold_dyns_ok(rest, statics, acc);
            assert(acc + dyn_pairs_of(shapes) =~= acc + dyn_pairs_of(rest));
        } else {
            let a = shapes[0];
            let acc2 = acc.push(dyn_pair(a));
            lemma_fold_dyns_ok(rest, statics, acc2);
            assert(acc2 + dyn_pairs_of(rest) =~= acc + dyn_pairs_of(shapes));
        }
    }
}

/// Every attribute set meeting the resolvable conditions compiles, to
/// exactly the statics in source order, the synthesized `id`, the
/// `class` fold, and the dynamics in source order.
pub proof fn lemma_el_attrs_resolve(
    classes: Seq<Seq<char>>,
    id: Option<(Seq<char>, int)>,
    shapes: Seq<AttrShape>,
)
    requires
        attrs_resolvable(classes, id, shapes),
    ensures
        spec_el_attrs(classes, id, shapes) == Ok::<_, (int, ErrorKind)>(
            resolved_attrs(classes, id, shapes),
        ),
{
    assert(names_of(Seq::empty()).len() == 0);
    lemma_fold_statics_ok(shapes, classes.len() > 0, Seq::empty());
    let statics = static_pairs_of(shapes);
    assert(Seq::empty() + statics =~= statics);
    let with_id = match id {
        Some((n, p)) => statics.push((id_name(), AttrValV::Text(n))),
        None => statics,
    };
    match id {
        Some((n, p)) => {
            assert(spec_fold_id(statics, id) == Ok::<_, (int, ErrorKind)>(with_id));
        },
        None => {},
    }
    let with_classes = spec_fold_classes(with_id, classes);
    assert(with_classes == resolved_statics(classes, id, shapes));
    lemma_fold_dyns_ok(shapes, names_of(with_classes), with_classes);
}

/// An element with class markers and no explicit `class` attribute
/// compiles under the resolvable conditions, and its resolved set holds
/// the synthesized `class` attribute: the marker names space-joined, in
/// a pre-validated value written verbatim.
pub proof fn lemma_class_markers_synthesized_resolve(
    classes: Seq<Seq<char>>,
    id: Option<(Seq<char>, int)>,
    shapes: Seq<AttrShape>,
)
    requires
        attrs_resolvable(classes, id, shapes),
        classes.len() > 0,
        !names_of(static_pairs_of(shapes)).contains(class_name()),
    ensures
        spec_el_attrs(classes, id, shapes) matches Ok(pairs) && pairs.contains(
            (class_name(), AttrValV::NoSpec(join_classes(classes))),
        ),
{
    lemma_el_attrs_resolve(classes, id, shapes);
    let statics = static_pairs_of(shapes);
    let with_id = match id {
        Some((n, p)) => statics.push((id_name(), AttrValV::Text(n))),
        None => statics,
    };
    assert(id_name().len() == 2 && class_name().len() == 5);
    assert(!names_of(with_id).contains(class_name())) by {
        if names_of(with_id).contains(class_name()) {
            let w = choose|w: int|
                0 <= w < names_of(with_id).len() && names_of(with_id)[w] == class_name();
            if w < statics.len() {
                assert(names_of(statics)[w] == class_name());
            }
        }
    }
    lemma_class_markers_synthesized(with_id, classes);
    let pair = (class_name(), AttrValV::NoSpec(join_classes(classes)));
    let pairs = resolved_attrs(classes, id, shapes);
    assert(pairs[with_id.len() as int] == pair);
}

/// An element with class markers and one explicit `class` attribute of
/// plain-text value `v` compiles under the resolvable conditions, and
/// its resolved set holds the merged `class` attribute: `v` (escaped),
/// a space, then the joined markers — or the markers alone if `v` is
/// empty — by the class-concatenation rule.
pub proof fn lemma_class_markers_merged_resolve(
    classes: Seq<Seq<char>>,
    id: Option<(Seq<char>, int)>,
    shapes: Seq<AttrShape>,
    v: Seq<char>,
)
    requires
        attrs_resolvable(classes, id, shapes),
        classes.len() > 0,
        names_of(static_pairs_of(shapes)).contains(class_name()),
        static_pairs_of(shapes)[find_name(static_pairs_of(shapes), class_name())].1
            == AttrValV::Text(v),
    ensures
        spec_el_attrs(classes, id, shapes) matches Ok(pairs) && pairs.contains(
            (class_name(), AttrValV::Concat(v, join_classes(classes))),
        ),
{
    lemma_el_attrs_resolve(classes, id, shapes);
    let statics = static_pairs_of(shapes);
    let with_id = match id {
        Some((n, p)) => statics.push((id_name(), AttrValV::Text(n))),
        None => statics,
    };
    assert(id_name().len() == 2 && class_name().len() == 5);
    let k = find_name(statics, class_name());
    lemma_find_name(statics, class_name());
    lemma_find_name(with_id, class_name());
    assert(names_of(with_id).contains(class_name())) by {
        let w = choose|w: int|
            0 <= w < names_of(statics).len() && names_of(statics)[w] == class_name();
        assert(names_of(with_id)[w] == class_name());
    }
    assert(find_name(with_id, class_name()) == k) by {
        let k2 = find_name(with_id, class_name());
        assert(with_id[k].0 == class_name());
        assert(forall|j: int| 0 <= j < k ==> (#[trigger] with_id[j]).0 != class_name());
        if k2 < k {
            assert(with_id[k2].0 == class_name());
        }
        if k < k2 {
            assert(with_id[k].0 != class_name());
        }
    }
    lemma_class_markers_merged(with_id, classes, v);
    let pair = (class_name(), AttrValV::Concat(v, join_classes(classes)));
    let pairs = resolved_attrs(classes, id, shapes);
    assert(pairs[k] == pair);
}

/// The first duplicated static attribute is the one reported: folding
/// fails with a duplicate-attribute error at its position.
pub proof fn lemma_first_duplicate_position(
    shapes: Seq<AttrShape>,
    has_classes: bool,
    acc: Seq<(Seq<char>, AttrValV)>,
    k: int,
)
    requires
        0 <= k < shapes.len(),
        !shapes[k].is_dyn,
        names_of(acc).contains(shapes[k].name_text) || (exists|j: int|
            0 <= j < k && !(#[trigger] shapes[j]).is_dyn && shapes[j].name_text
                == shapes[k].name_text),
        forall|j1: int, j2: int|
            0 <= j1 < j2 < k && !(#[trigger] shapes[j1]).is_dyn && !(
            #[trigger] shapes[j2]).is_dyn ==> shapes[j1].name_text != shapes[j2].name_text,
        forall|j: int|
            0 <= j < k && !(#[trigger] shapes[j]).is_dyn ==> (static_value_v(
                shapes[j].value,
            ) is Some && !names_of(acc).contains(shapes[j].name_text)),
        has_classes ==> (forall|j: int|
            0 <= j < k && !(#[trigger] shapes[j]).is_dyn && shapes[j].name_text == class_name()
                ==> (static_value_v(shapes[j].value) matches Some(v) && (v is Text
                || v is NoSpec))),
    ensures
        spec_fold_statics(shapes, has_classes, acc) == Err::<
            Seq<(Seq<char>, AttrValV)>,
            (int, ErrorKind),
        >((shapes[k].lo, ErrorKind::DuplicateAttribute)),
    decreases k,
{
    let rest = shapes.drop_first();
    assert(forall|w: int| 0 <= w < rest.len() ==> #[trigger] rest[w] == shapes[w + 1]);
    if k == 0 {
        assert(names_of(acc).contains(shapes[0].name_text));
    } else {
        let a = shapes[0];
        if a.is_dyn {
            if !names_of(acc).contains(shapes[k].name_text) {
                let j = choose|j: int|
                    0 <= j < k && !(#[trigger] shapes[j]).is_dyn && shapes[j].name_text
                        == shapes[k].name_text;
                assert(j != 0);
                assert(rest[j - 1] == shapes[j]);
            }
            lemma_first_duplicate_position(rest, has_classes, acc, k - 1);
        } else {
            assert(!names_of(acc).contains(a.name_text));
            let acc2 = acc.push(static_pair(a));
            assert(names_of(acc2) =~= names_of(acc).push(a.name_text));
            assert forall|j: int|
                0 <= j < k - 1 && !(#[trigger] rest[j]).is_dyn implies (static_value_v(
                rest[j].value,
            ) is Some && !names_of(acc2).contains(rest[j].name_text)) by {
                assert(rest[j] == shapes[j + 1]);
                assert(rest[j].name_text != a.name_text);
                if names_of(acc2).contains(rest[j].name_text) {
                    let w = choose|w: int|
                        0 <= w < names_of(acc2).len() && names_of(acc2)[w]
                            == rest[j].name_text;
                    assert(w < acc.len());
                    assert(names_of(acc)[w] == rest[j].name_text);
                }
            }
            if !names_of(acc).contains(shapes[k].name_text) {
                let j = choose|j: int|
                    0 <= j < k && !(#[trigger] shapes[j]).is_dyn && shapes[j].name_text
                        == shapes[k].name_text;
                if j == 0 {
                    assert(names_of(acc2)[acc.len() as int] == shapes[k].name_text);
                    assert(names_of(acc2).contains(rest[k - 1].name_text));
                } else {
                    assert(rest[j - 1] == shapes[j]);
                }
            } else {
                let w = choose|w: int|
                    0 <= w < names_of(acc).len() && names_of(acc)[w] == shapes[k].name_text;
                assert(names_of(acc2)[w] == shapes[k].name_text);
            }
            lemma_first_duplicate_position(rest, has_classes, acc2, k - 1);
        }
    }
}

/// The grammar is deterministic: two nodes matching the same position
/// consume the same tokens and compile to the same text or error.
pub proof fn lemma_node_matches_agree(
    t: Seq<Token>,
    i: int,
    n1: crate::parse::HtmlNode,
    e1: int,
    n2: crate::parse::HtmlNode,
    e2: int,
)
    requires
        crate::parse::node_matches(t, i, n1, e1),
        crate::parse::node_matches(t, i, n2, e2),
    ensures
        e1 == e2,
        crate::codegen::node_result(n1) == crate::codegen::node_result(n2),
    decreases n1,
{
    broadcast use vstd::std_specs::vec::group_vec_axioms;
    broadcast use vstd::seq::group_seq_axioms;

    crate::parse::lemma_node_matches_token(t, i, n1, e1);
    crate::parse::lemma_node_matches_token(t, i, n2, e2);
    match (n1, n2) {
        (crate::parse::HtmlNode::Arbitrary(v1, sp1), crate::parse::HtmlNode::Arbitrary(
            v2,
            sp2,
        )) => {},
        (crate::parse::HtmlNode::Element(el1), crate::parse::HtmlNode::Element(el2)) => {
            let (h, m) = crate::parse::spec_element_head(t, i)->Ok_0;
            assert(crate::parse::classes_shape(el1.classes@) == crate::parse::classes_shape(
                el2.classes@,
            ));
            assert(crate::parse::id_shape(el1.id) == crate::parse::id_shape(el2.id));
            assert(crate::codegen::el_shapes(el1) == crate::codegen::el_shapes(el2));
            assert(crate::codegen::el_attrs_result(el1) == crate::codegen::el_attrs_result(el2));
            match (el1.children, el2.children) {
                (None, None) => {},
                (Some(ns1), Some(ns2)) => {
                    assert(decreases_to!(n1 => n1->Element_0));
                    assert(decreases_to!(el1 => el1.children));
                    assert(decreases_to!(el1.children => el1.children->0));
                    assert(decreases_to!(ns1 => ns1.nodes));
                    assert(decreases_to!(ns1.nodes => ns1.nodes@));
                    lemma_nodes_match_agree(
                        t,
                        m + 1,
                        ns1.nodes@,
                        ns1.span.hi as int,
                        ns2.nodes@,
                        ns2.span.hi as int,
                    );
                },
                _ => {
                    assert(false);
                },
            }
        },
        _ => {
            assert(false);
        },
    }
}

/// The grammar is deterministic: two node lists matching the same
/// position up to a stopping point consume the same tokens and compile
/// to the same text or error.
pub proof fn lemma_nodes_match_agree(
    t: Seq<Token>,
    i: int,
    a: Seq<crate::parse::HtmlNode>,
    e1: int,
    b: Seq<crate::parse::HtmlNode>,
    e2: int,
)
    requires
        crate::parse::nodes_match(t, i, a, e1),
        crate::parse::nodes_match(t, i, b, e2),
        crate::parse::nodes_stop(t, e1),
        crate::parse::nodes_stop(t, e2),
    ensures
        e1 == e2,
        crate::codegen::nodes_result(a) == crate::codegen::nodes_result(b),
    decreases a,
{
    broadcast use vstd::seq::group_seq_axioms;

    if a.len() == 0 && b.len() == 0 {
    } else if a.len() == 0 {
        crate::parse::lemma_node_matches_token(t, i, b[0], b[0].spec_span().hi as int);
        assert(false);
    } else if b.len() == 0 {
        crate::parse::lemma_node_matches_token(t, i, a[0], a[0].spec_span().hi as int);
        assert(false);
    } else {
        let j1 = a[0].spec_span().hi as int;
        let j2 = b[0].spec_span().hi as int;
        assert(decreases_to!(a => a[0]));
        lemma_node_matches_agree(t, i, a[0], j1, b[0], j2);
        assert(decreases_to!(a => a.drop_first()));
        lemma_nodes_match_agree(t, j1, a.drop_first(), e1, b.drop_first(), e2);
    }
}

/// Where a matched prefix of a fully matching node list stops short of a
/// stopping point, another node matches right there: parsing can always
/// take the next step.
pub proof fn lemma_nodes_match_next(
    t: Seq<Token>,
    i0: int,
    acc: Seq<crate::parse::HtmlNode>,
    i: int,
    all: Seq<crate::parse::HtmlNode>,
    e2: int,
)
    requires
        crate::parse::nodes_match(t, i0, acc, i),
        crate::parse::nodes_match(t, i0, all, e2),
        crate::parse::nodes_stop(t, e2),
        !crate::parse::nodes_stop(t, i),
    ensures
        exists|n: crate::parse::HtmlNode, j: int| crate::parse::node_matches(t, i, n, j),
    decreases acc,
{
    broadcast use vstd::seq::group_seq_axioms;

    if acc.len() == 0 {
        if all.len() == 0 {
            assert(false);
        } else {
            let j = all[0].spec_span().hi as int;
            assert(crate::parse::node_matches(t, i, all[0], j));
        }
    } else {
        if all.len() == 0 {
            crate::parse::lemma_node_matches_token(
                t,
                i0,
                acc[0],
                acc[0].spec_span().hi as int,
            );
            assert(false);
        } else {
            assert(decreases_to!(acc => acc[0]));
            lemma_node_matches_agree(
                t,
                i0,
                acc[0],
                acc[0].spec_span().hi as int,
                all[0],
                all[0].spec_span().hi as int,
            );
            assert(decreases_to!(acc => acc.drop_first()));
            lemma_nodes_match_next(
                t,
                acc[0].spec_span().hi as int,
                acc.drop_first(),
                i,
                all.drop_first(),
                e2,
            );
        }
    }
}

/// A second id marker on one element fails compilation: once the scan
/// has recorded an id, the next `#` is rejected where it stands.
pub proof fn lemma_second_id_rejected(
    t: Seq<Token>,
    j: int,
    id: Option<(Seq<char>, int)>,
    classes: Seq<Seq<char>>,
)
    requires
        0 <= j < t.len(),
        t[j] is Hash,
        id is Some,
    ensures
        spec_markers(t, j, id, classes) == Err::<
            (Seq<Seq<char>>, Option<(Seq<char>, int)>, int),
            (int, ErrorKind),
        >((j, ErrorKind::DuplicateId)),
{
}

/// A marker scan that starts with an id recorded keeps exactly that id
/// and passes no further `#`: an element never ends up with two ids.
pub proof fn lemma_markers_single_id(
    t: Seq<Token>,
    i: int,
    id: Option<(Seq<char>, int)>,
    classes: Seq<Seq<char>>,
)
    requires
        0 <= i <= t.len(),
        id is Some,
    ensures
        spec_markers(t, i, id, classes) matches Ok((cs, idr, e)) ==> idr == id && (forall|j: int|
            i <= j < e ==> !((#[trigger] t[j]) is Hash)),
    decreases t.len() - i,
{
    if i < t.len() && t[i] is Dot {
        crate::parse::lemma_spec_name(t, i + 1);
        match crate::parse::spec_name(t, i + 1) {
            Ok((n, e)) => {
                lemma_markers_single_id(t, e, id, classes.push(n));
            },
            Err(_) => {},
        }
    }
}

/// Two static attributes of one name — or a static attribute whose name
/// was already resolved — fail compilation.
pub proof fn lemma_duplicate_static_rejected(
    shapes: Seq<AttrShape>,
    has_classes: bool,
    acc: Seq<(Seq<char>, AttrValV)>,
)
    requires
        (exists|j: int, k: int|
            0 <= j < k < shapes.len() && !(#[trigger] shapes[j]).is_dyn && !(
            #[trigger] shapes[k]).is_dyn && shapes[j].name_text == shapes[k].name_text) || (exists|
            j: int,
        |
            0 <= j < shapes.len() && !(#[trigger] shapes[j]).is_dyn && names_of(acc).contains(
                shapes[j].name_text,
            )),
    ensures
        spec_fold_statics(shapes, has_classes, acc) is Err,
    decreases shapes.len(),
{
    let a = shapes[0];
    if a.is_dyn {
        assert forall|w: int|
            0 <= w < shapes.drop_first().len() implies #[trigger] shapes.drop_first()[w]
            == shapes[w + 1] by {}
        if exists|j: int, k: int|
            0 <= j < k < shapes.len() && !(#[trigger] shapes[j]).is_dyn && !(
            #[trigger] shapes[k]).is_dyn && shapes[j].name_text == shapes[k].name_text {
            let (j, k) = choose|j: int, k: int|
                0 <= j < k < shapes.len() && !(#[trigger] shapes[j]).is_dyn && !(
                #[trigger] shapes[k]).is_dyn && shapes[j].name_text == shapes[k].name_text;
            assert(j != 0);
            assert(shapes.drop_first()[j - 1] == shapes[j]);
            assert(shapes.drop_first()[k - 1] == shapes[k]);
        } else {
            let j = choose|j: int|
                0 <= j < shapes.len() && !(#[trigger] shapes[j]).is_dyn && names_of(acc).contains(
                    shapes[j].name_text,
                );
            assert(j != 0);
            assert(shapes.drop_first()[j - 1] == shapes[j]);
        }
        lemma_duplicate_static_rejected(shapes.drop_first(), has_classes, acc);
    } else if names_of(acc).contains(a.name_text) {
    } else {
        match static_value_v(a.value) {
            None => {},
            Some(v) => {
                if a.name_text == class_name() && has_classes && !(v is Text || v is NoSpec) {
                } else {
                    let acc2 = acc.push((a.name_text, v));
                    assert(names_of(acc2) =~= names_of(acc).push(a.name_text));
                    assert forall|w: int|
                        0 <= w < shapes.drop_first().len() implies #[trigger] shapes.drop_first()[w]
                        == shapes[w + 1] by {}
                    if exists|j: int, k: int|
                        0 <= j < k < shapes.len() && !(#[trigger] shapes[j]).is_dyn && !(
                        #[trigger] shapes[k]).is_dyn && shapes[j].name_text
                            == shapes[k].name_text {
                        let (j, k) = choose|j: int, k: int|
                            0 <= j < k < shapes.len() && !(#[trigger] shapes[j]).is_dyn && !(
                            #[trigger] shapes[k]).is_dyn && shapes[j].name_text
                                == shapes[k].name_text;
                        if j == 0 {
                            assert(names_of(acc2)[acc.len() as int] == a.name_text);
                            assert(names_of(acc2).contains(shapes[k].name_text));
                            assert(shapes.drop_first()[k - 1] == shapes[k]);
                        } else {
                            assert(shapes.drop_first()[j - 1] == shapes[j]);
                            assert(shapes.drop_first()[k - 1] == shapes[k]);
                        }
                    } else {
                        let j = choose|j: int|
                            0 <= j < shapes.len() && !(#[trigger] shapes[j]).is_dyn && names_of(
                                acc,
                            ).contains(shapes[j].name_text);
                        assert(j != 0);
                        assert(shapes.drop_first()[j - 1] == shapes[j]);
                        let w = choose|w: int|
                            0 <= w < names_of(acc).len() && names_of(acc)[w]
                                == shapes[j].name_text;
                        assert(names_of(acc2)[w] == shapes[j].name_text);
                    }
                    lemma_duplicate_static_rejected(shapes.drop_first(), has_classes, acc2);
                }
            },
        }
    }
}

/// Two attributes of one name on one element fail compilation, whatever
/// else the element holds.
pub proof fn lemma_duplicate_attrs_fail(
    classes: Seq<Seq<char>>,
    id: Option<(Seq<char>, int)>,
    shapes: Seq<AttrShape>,
)
    requires
        exists|j: int, k: int|
            0 <= j < k < shapes.len() && !(#[trigger] shapes[j]).is_dyn && !(
            #[trigger] shapes[k]).is_dyn && shapes[j].name_text == shapes[k].name_text,
    ensures
        spec_el_attrs(classes, id, shapes) is Err,
{
    assert(names_of(Seq::empty()).len() == 0);
    lemma_duplicate_static_rejected(shapes, classes.len() > 0, Seq::empty());
}

/// An id marker beside an explicit `id` attribute fails compilation
/// with a duplicate-attribute error at the marker.
pub proof fn lemma_id_collision_rejected(
    classes: Seq<Seq<char>>,
    n: Seq<char>,
    p: int,
    shapes: Seq<AttrShape>,
    statics: Seq<(Seq<char>, AttrValV)>,
)
    requires
        spec_fold_statics(shapes, classes.len() > 0, Seq::empty()) == Ok::<_, (int, ErrorKind)>(
            statics,
        ),
        names_of(statics).contains(id_name()),
    ensures
        spec_el_attrs(classes, Some((n, p)), shapes) == Err::<
            Seq<(Seq<char>, AttrValV)>,
            (int, ErrorKind),
        >((p, ErrorKind::DuplicateAttribute)),
{
}

} // verus!
