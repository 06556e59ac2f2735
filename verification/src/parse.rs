//! Document-level steps that come before the scene is built: which elements
//! are SMIL animations or geometry, and the identifiers given to animated
//! elements that have none.

use vstd::prelude::*;
use vstd::string::*;
use crate::text::{concat_str, decimal, decimal_string};
use vstd::utf8::*;
use crate::types::SvgError;
use crate::xml::tokenizer::{attrs_view, has_prefix};
use crate::xml::tree::{
    XmlDocument, parse_xml, spec_parse_xml,
    SpecElement, SpecNode, XmlElement, XmlNode, lemma_nodes_view,
    lemma_nodes_view_push, node_view, nodes_view, str_eq,
};

verus! {

broadcast use vstd::seq::group_seq_axioms;

/// The SMIL animation elements: they are read by the animation reader and
/// skipped when the scene is built.
pub open spec fn is_smil_tag(t: Seq<char>) -> bool {
    t == "animate"@ || t == "set"@ || t == "animateTransform"@ || t == "animateMotion"@
}

/// The elements that are turned into paths.
pub open spec fn is_geometry_tag(t: Seq<char>) -> bool {
    t == "rect"@ || t == "circle"@ || t == "ellipse"@ || t == "line"@ || t == "polyline"@ || t
        == "polygon"@ || t == "path"@
}

/// Executable form of [`is_smil_tag`].
pub fn smil_tag(t: &str) -> (r: bool)
    ensures
        r == is_smil_tag(t@),
{
    str_eq(t, "animate") || str_eq(t, "set") || str_eq(t, "animateTransform") || str_eq(
        t,
        "animateMotion",
    )
}

/// Executable form of [`is_geometry_tag`].
pub fn geometry_tag(t: &str) -> (r: bool)
    ensures
        r == is_geometry_tag(t@),
{
    str_eq(t, "rect") || str_eq(t, "circle") || str_eq(t, "ellipse") || str_eq(t, "line")
        || str_eq(t, "polyline") || str_eq(t, "polygon") || str_eq(t, "path")
}

/// Some child of `ns` is a SMIL animation element.
pub open spec fn has_smil_child(ns: Seq<SpecNode>) -> bool {
    exists|k: int|
        0 <= k < ns.len() && (#[trigger] ns[k] matches SpecNode::Element(e) && is_smil_tag(e.tag))
}

/// Some attribute is called `key`.
pub open spec fn has_attr(a: Seq<(Seq<char>, Seq<char>)>, key: Seq<char>) -> bool {
    exists|k: int| 0 <= k < a.len() && (#[trigger] a[k]).0 == key
}

/// The identifier given to the `c`-th animated element without one.
pub open spec fn auto_id(c: nat) -> Seq<char> {
    "__smil_target_"@ + decimal(c)
}

/// An element gets an identifier when it has a SMIL child and no `id`.
pub open spec fn needs_id(e: SpecElement) -> bool {
    has_smil_child(e.children) && !has_attr(e.attrs, "id"@)
}

/// Identifiers given to an element and, in document order, to its
/// descendants, counting from `c`; also the count after the last one.
pub open spec fn spec_assign_elem(e: SpecElement, c: nat) -> (SpecElement, nat)
    decreases e,
{
    let attrs = if needs_id(e) {
        e.attrs.push(("id"@, auto_id(c)))
    } else {
        e.attrs
    };
    let c1: nat = if needs_id(e) {
        c + 1
    } else {
        c
    };
    let (kids, c2) = spec_assign_nodes(e.children, c1);
    (SpecElement { tag: e.tag, attrs, children: kids }, c2)
}

/// [`spec_assign_elem`] over a list of nodes, in order.
pub open spec fn spec_assign_nodes(ns: Seq<SpecNode>, c: nat) -> (Seq<SpecNode>, nat)
    decreases ns,
{
    if ns.len() == 0 {
        (Seq::empty(), c)
    } else {
        let (n0, c0) = match ns[0] {
            SpecNode::Element(e) => {
                let (e2, c2) = spec_assign_elem(e, c);
                (SpecNode::Element(e2), c2)
            },
            SpecNode::Text(t) => (SpecNode::Text(t), c),
        };
        let (rest, c1) = spec_assign_nodes(ns.subrange(1, ns.len() as int), c0);
        (seq![n0] + rest, c1)
    }
}

/// The counter never goes down.
pub proof fn lemma_assign_monotone(e: SpecElement, c: nat)
    ensures
        spec_assign_elem(e, c).1 >= c,
    decreases e,
{
    let c1: nat = if needs_id(e) {
        c + 1
    } else {
        c
    };
    lemma_assign_nodes_monotone(e.children, c1);
}

/// The counter never goes down.
pub proof fn lemma_assign_nodes_monotone(ns: Seq<SpecNode>, c: nat)
    ensures
        spec_assign_nodes(ns, c).1 >= c,
    decreases ns,
{
    if ns.len() > 0 {
        let c0 = match ns[0] {
            SpecNode::Element(e) => {
                lemma_assign_monotone(e, c);
                spec_assign_elem(e, c).1
            },
            SpecNode::Text(t) => c,
        };
        lemma_assign_nodes_monotone(ns.subrange(1, ns.len() as int), c0);
    }
}

/// The number of nodes of an element's subtree.
pub open spec fn elem_size(e: SpecElement) -> nat
    decreases e,
{
    1 + nodes_size(e.children)
}

/// The number of nodes under a list of nodes.
pub open spec fn nodes_size(ns: Seq<SpecNode>) -> nat
    decreases ns,
{
    if ns.len() == 0 {
        0
    } else {
        (match ns[0] {
            SpecNode::Element(e) => elem_size(e),
            SpecNode::Text(_) => 1,
        }) + nodes_size(ns.subrange(1, ns.len() as int))
    }
}

/// A child element is smaller than the list that holds it.
pub proof fn lemma_child_size(ns: Seq<SpecNode>, k: int, c: SpecElement)
    requires
        0 <= k < ns.len(),
        ns[k] == SpecNode::Element(c),
    ensures
        elem_size(c) <= nodes_size(ns),
    decreases ns.len(),
{
    if k > 0 {
        let rest = ns.subrange(1, ns.len() as int);
        assert(rest[k - 1] == ns[k]);
        lemma_child_size(rest, k - 1, c);
    }
}

/// Whether some child element is a SMIL animation element.
fn smil_child(el: &XmlElement) -> (r: bool)
    ensures
        r == has_smil_child(el@.children),
{
    let mut i: usize = 0;
    proof {
        lemma_nodes_view(el.children@);
    }
    while i < el.children.len()
        invariant
            i <= el.children@.len(),
            nodes_view(el.children@).len() == el.children@.len(),
            forall|k: int|
                0 <= k < el.children@.len() ==> #[trigger] nodes_view(el.children@)[k] == node_view(
                    el.children@[k],
                ),
            forall|k: int|
                0 <= k < i ==> !(#[trigger] nodes_view(el.children@)[k] matches SpecNode::Element(
                    e,
                ) && is_smil_tag(e.tag)),
        decreases el.children.len() - i,
    {
        match &el.children[i] {
            XmlNode::Element(e) => {
                if smil_tag(e.tag.as_str()) {
                    proof {
                        assert(nodes_view(el.children@)[i as int] == SpecNode::Element(e@));
                    }
                    return true;
                }
            },
            XmlNode::Text(_) => {},
        }
        i += 1;
    }
    false
}

/// Gives every element that has a SMIL animation child but no `id` the
/// identifier `__smil_target_N`, `N` counting up from `*counter` in document
/// order, and advances `*counter` past the last number given.
pub fn assign_auto_ids(el: &mut XmlElement, counter: &mut u32)
    requires
        spec_assign_elem(old(el)@, *old(counter) as nat).1 <= u32::MAX,
    ensures
        (final(el)@, *final(counter) as nat) == spec_assign_elem(old(el)@, *old(counter) as nat),
    decreases elem_size(old(el)@),
{
    let ghost e0 = el@;
    let ghost c0 = *counter as nat;
    let has_smil = smil_child(el);
    let id_attr = el.attribute("id");
    let needs = has_smil && id_attr.is_none();
    proof {
        lemma_assign_monotone(e0, c0);
        match id_attr {
            Some(v) => {
                let k = choose|k: int|
                    0 <= k < el.attrs@.len() && (#[trigger] el.attrs@[k]).0@ == "id"@
                        && el.attrs@[k].1@ == v@ && forall|j: int|
                        0 <= j < k ==> (#[trigger] el.attrs@[j]).0@ != "id"@;
                assert(e0.attrs[k].0 == "id"@);
            },
            None => {
                assert forall|k: int| 0 <= k < e0.attrs.len() implies (#[trigger] e0.attrs[k]).0
                    != "id"@ by {
                    assert(e0.attrs[k].0 == el.attrs@[k].0@);
                }
            },
        }
        assert(needs == needs_id(e0));
        lemma_assign_nodes_monotone(e0.children, if needs { c0 + 1 } else { c0 });
    }
    if needs {
        let n = decimal_string(*counter as u64);
        let id = concat_str("__smil_target_", n.as_str());
        let ghost old_attrs = el.attrs@;
        el.attrs.push((String::from_str("id"), id));
        proof {
            assert(attrs_view(el.attrs@) =~= attrs_view(old_attrs).push(("id"@, auto_id(c0))));
        }
        *counter += 1;
    }
    let ghost c1 = *counter as nat;
    let ghost attrs1 = attrs_view(el.attrs@);
    let mut kids: Vec<XmlNode> = Vec::new();
    std::mem::swap(&mut kids, &mut el.children);
    let ghost all = kids@;
    let ghost n = kids@.len();
    proof {
        lemma_nodes_view(all);
    }
    let mut rev: Vec<XmlNode> = Vec::new();
    while kids.len() > 0
        invariant
            kids@.len() + rev@.len() == n,
            n == all.len(),
            forall|k: int| 0 <= k < kids@.len() ==> #[trigger] kids@[k] == all[k],
            forall|k: int| 0 <= k < rev@.len() ==> #[trigger] rev@[k] == all[n - 1 - k],
        decreases kids.len(),
    {
        let x = kids.pop().unwrap();
        rev.push(x);
    }
    proof {
        assert(nodes_view(el.children@) =~= Seq::<SpecNode>::empty());
        assert(nodes_view(all).subrange(0, n as int) =~= nodes_view(all));
        assert(Seq::<SpecNode>::empty() + spec_assign_nodes(nodes_view(all), c1).0
            =~= spec_assign_nodes(nodes_view(all), c1).0);
    }
    while rev.len() > 0
        invariant
            rev@.len() <= n,
            n == all.len(),
            nodes_view(all).len() == n,
            forall|k: int| 0 <= k < n ==> #[trigger] nodes_view(all)[k] == node_view(all[k]),
            forall|k: int| 0 <= k < rev@.len() ==> #[trigger] rev@[k] == all[n - 1 - k],
            el@.tag == e0.tag,
            attrs_view(el.attrs@) == attrs1,
            spec_assign_elem(e0, c0).1 <= u32::MAX,
            spec_assign_nodes(nodes_view(all), c1) == (
                nodes_view(el.children@) + spec_assign_nodes(
                    nodes_view(all).subrange(n - rev@.len(), n as int),
                    *counter as nat,
                ).0,
                spec_assign_nodes(
                    nodes_view(all).subrange(n - rev@.len(), n as int),
                    *counter as nat,
                ).1,
            ),
            spec_assign_elem(e0, c0) == (
                SpecElement { tag: e0.tag, attrs: attrs1, children: spec_assign_nodes(nodes_view(all), c1).0 },
                spec_assign_nodes(nodes_view(all), c1).1,
            ),
            e0.children == nodes_view(all),
            e0 == old(el)@,
        decreases rev.len(),
    {
        let ghost i = n - rev@.len();
        let ghost sub = nodes_view(all).subrange(i, n as int);
        let ghost cnt = *counter as nat;
        let x = rev.pop().unwrap();
        proof {
            assert(x == all[i]);
            assert(sub[0] == node_view(x));
            assert(sub.subrange(1, sub.len() as int) =~= nodes_view(all).subrange(i + 1, n as int));
            lemma_assign_nodes_monotone(nodes_view(all).subrange(i + 1, n as int), match sub[0] {
                SpecNode::Element(e) => spec_assign_elem(e, cnt).1,
                SpecNode::Text(_) => cnt,
            });
            lemma_assign_nodes_monotone(sub, cnt);
        }
        let ghost before = el.children@;
        match x {
            XmlNode::Element(mut c) => {
                proof {
                    lemma_child_size(e0.children, i, c@);
                }
                assign_auto_ids(&mut c, counter);
                let y = XmlNode::Element(c);
                el.children.push(y);
                proof {
                    lemma_nodes_view_push(before, y);
                    assert(nodes_view(before) + (seq![node_view(y)] + spec_assign_nodes(
                        nodes_view(all).subrange(i + 1, n as int),
                        *counter as nat,
                    ).0) =~= nodes_view(el.children@) + spec_assign_nodes(
                        nodes_view(all).subrange(i + 1, n as int),
                        *counter as nat,
                    ).0);
                }
            },
            XmlNode::Text(t) => {
                let y = XmlNode::Text(t);
                el.children.push(y);
                proof {
                    lemma_nodes_view_push(before, y);
                    assert(nodes_view(before) + (seq![node_view(y)] + spec_assign_nodes(
                        nodes_view(all).subrange(i + 1, n as int),
                        *counter as nat,
                    ).0) =~= nodes_view(el.children@) + spec_assign_nodes(
                        nodes_view(all).subrange(i + 1, n as int),
                        *counter as nat,
                    ).0);
                }
            },
        }
    }
    proof {
        assert(nodes_view(all).subrange(n as int, n as int) =~= Seq::<SpecNode>::empty());
        assert(nodes_view(el.children@) + Seq::<SpecNode>::empty() =~= nodes_view(el.children@));
    }
}


// ------------------------------------------------------------------
// What assigning identifiers achieves
// ------------------------------------------------------------------

/// Every element of the subtree that has a SMIL child has an `id`.
pub open spec fn ids_complete(e: SpecElement) -> bool
    decreases e,
{
    !needs_id(e) && ids_complete_nodes(e.children)
}

/// [`ids_complete`] for every element of a list of nodes.
pub open spec fn ids_complete_nodes(ns: Seq<SpecNode>) -> bool
    decreases ns,
{
    if ns.len() == 0 {
        true
    } else {
        (match ns[0] {
            SpecNode::Element(e) => ids_complete(e),
            SpecNode::Text(_) => true,
        }) && ids_complete_nodes(ns.subrange(1, ns.len() as int))
    }
}

/// Two nodes of the same kind: elements with the same name, or equal text.
pub open spec fn same_kind(a: SpecNode, b: SpecNode) -> bool {
    match (a, b) {
        (SpecNode::Element(x), SpecNode::Element(y)) => x.tag == y.tag,
        (SpecNode::Text(x), SpecNode::Text(y)) => x == y,
        _ => false,
    }
}

/// Assigning identifiers keeps the nodes of a list, their kinds and names.
proof fn lemma_assign_shape(ns: Seq<SpecNode>, c: nat)
    ensures
        spec_assign_nodes(ns, c).0.len() == ns.len(),
        forall|k: int|
            0 <= k < ns.len() ==> same_kind(#[trigger] ns[k], spec_assign_nodes(ns, c).0[k]),
    decreases ns,
{
    if ns.len() > 0 {
        let c0 = match ns[0] {
            SpecNode::Element(e) => spec_assign_elem(e, c).1,
            SpecNode::Text(_) => c,
        };
        let rest = ns.subrange(1, ns.len() as int);
        lemma_assign_shape(rest, c0);
        let out = spec_assign_nodes(ns, c).0;
        assert forall|k: int| 0 <= k < ns.len() implies same_kind(
            #[trigger] ns[k],
            spec_assign_nodes(ns, c).0[k],
        ) by {
            if k > 0 {
                assert(ns[k] == rest[k - 1]);
                assert(out[k] == spec_assign_nodes(rest, c0).0[k - 1]);
            }
        }
    }
}

/// A SMIL child is there after assignment exactly when it was before.
proof fn lemma_assign_keeps_smil_child(ns: Seq<SpecNode>, c: nat)
    ensures
        has_smil_child(spec_assign_nodes(ns, c).0) == has_smil_child(ns),
{
    lemma_assign_shape(ns, c);
    let out = spec_assign_nodes(ns, c).0;
    if has_smil_child(ns) {
        let k = choose|k: int|
            0 <= k < ns.len() && (#[trigger] ns[k] matches SpecNode::Element(e) && is_smil_tag(
                e.tag,
            ));
        assert(same_kind(ns[k], out[k]));
        assert(out[k] matches SpecNode::Element(e) && is_smil_tag(e.tag));
    }
    if has_smil_child(out) {
        let k = choose|k: int|
            0 <= k < out.len() && (#[trigger] out[k] matches SpecNode::Element(e) && is_smil_tag(
                e.tag,
            ));
        assert(same_kind(ns[k], out[k]));
        assert(ns[k] matches SpecNode::Element(e) && is_smil_tag(e.tag));
    }
}

proof fn lemma_assign_complete(e: SpecElement, c: nat)
    ensures
        ids_complete(spec_assign_elem(e, c).0),
    decreases e,
{
    let c1: nat = if needs_id(e) {
        c + 1
    } else {
        c
    };
    let out = spec_assign_elem(e, c).0;
    lemma_assign_keeps_smil_child(e.children, c1);
    lemma_assign_nodes_complete(e.children, c1);
    if needs_id(e) {
        assert(out.attrs[out.attrs.len() - 1].0 == "id"@);
    }
}

proof fn lemma_assign_nodes_complete(ns: Seq<SpecNode>, c: nat)
    ensures
        ids_complete_nodes(spec_assign_nodes(ns, c).0),
    decreases ns,
{
    if ns.len() > 0 {
        let c0 = match ns[0] {
            SpecNode::Element(e) => {
                lemma_assign_complete(e, c);
                spec_assign_elem(e, c).1
            },
            SpecNode::Text(_) => c,
        };
        let rest = ns.subrange(1, ns.len() as int);
        lemma_assign_nodes_complete(rest, c0);
        let out = spec_assign_nodes(ns, c).0;
        assert(out.subrange(1, out.len() as int) =~= spec_assign_nodes(rest, c0).0);
    }
}

proof fn lemma_complete_is_fixed(e: SpecElement, c: nat)
    requires
        ids_complete(e),
    ensures
        spec_assign_elem(e, c) == (e, c),
    decreases e,
{
    lemma_complete_nodes_fixed(e.children, c);
}

proof fn lemma_complete_nodes_fixed(ns: Seq<SpecNode>, c: nat)
    requires
        ids_complete_nodes(ns),
    ensures
        spec_assign_nodes(ns, c) == (ns, c),
    decreases ns,
{
    if ns.len() > 0 {
        let rest = ns.subrange(1, ns.len() as int);
        match ns[0] {
            SpecNode::Element(e) => lemma_complete_is_fixed(e, c),
            SpecNode::Text(_) => {},
        }
        lemma_complete_nodes_fixed(rest, c);
        assert(seq![ns[0]] + rest =~= ns);
    }
}

/// After identifiers are assigned, every element that has a SMIL animation
/// child has an `id`; assigning them once more changes nothing and uses up
/// no number.
pub proof fn assigned_ids_are_complete(e: SpecElement, c: nat)
    ensures
        ids_complete(spec_assign_elem(e, c).0),
        spec_assign_elem(spec_assign_elem(e, c).0, spec_assign_elem(e, c).1) == spec_assign_elem(
            e,
            c,
        ),
{
    lemma_assign_complete(e, c);
    lemma_complete_is_fixed(spec_assign_elem(e, c).0, spec_assign_elem(e, c).1);
}


// ------------------------------------------------------------------
// The outline of the scene
// ------------------------------------------------------------------

/// What the scene is built from: a `g` element with the items inside it, or
/// a geometry element that becomes a shape.
#[derive(Debug)]
pub enum SceneItem<'a> {
    Group(&'a XmlElement, Vec<SceneItem<'a>>),
    Shape(&'a XmlElement),
}

/// The mathematical form of [`SceneItem`].
pub enum SpecItem {
    Group(SpecElement, Seq<SpecItem>),
    Shape(SpecElement),
}

/// The view of an item.
pub open spec fn item_view<'a>(i: SceneItem<'a>) -> SpecItem
    decreases i,
{
    match i {
        SceneItem::Group(e, v) => SpecItem::Group(e@, items_view(v@)),
        SceneItem::Shape(e) => SpecItem::Shape(e@),
    }
}

/// The views of a list of items.
pub open spec fn items_view<'a>(v: Seq<SceneItem<'a>>) -> Seq<SpecItem>
    decreases v,
{
    if v.len() == 0 {
        Seq::empty()
    } else {
        items_view(v.subrange(0, v.len() - 1)).push(item_view(v[v.len() - 1]))
    }
}

proof fn lemma_items_view_push<'a>(v: Seq<SceneItem<'a>>, i: SceneItem<'a>)
    ensures
        items_view(v.push(i)) == items_view(v).push(item_view(i)),
{
    assert(v.push(i).subrange(0, v.len() as int) =~= v);
}

/// The items an element contributes to the group it stands in: nothing for
/// a SMIL element, a group for `g`, a shape for a geometry element, and for
/// any other element (`defs`, `title`, ...) the items of its children.
pub open spec fn outline_elem(e: SpecElement) -> Seq<SpecItem>
    decreases e,
{
    if is_smil_tag(e.tag) {
        Seq::empty()
    } else if e.tag == "g"@ {
        seq![SpecItem::Group(e, outline_nodes(e.children))]
    } else if is_geometry_tag(e.tag) {
        seq![SpecItem::Shape(e)]
    } else {
        outline_nodes(e.children)
    }
}

/// The items of the elements of a list of nodes, in order.
pub open spec fn outline_nodes(ns: Seq<SpecNode>) -> Seq<SpecItem>
    decreases ns,
{
    if ns.len() == 0 {
        Seq::empty()
    } else {
        (match ns[0] {
            SpecNode::Element(e) => outline_elem(e),
            SpecNode::Text(_) => Seq::empty(),
        }) + outline_nodes(ns.subrange(1, ns.len() as int))
    }
}

fn outline_into<'a>(el: &'a XmlElement, out: &mut Vec<SceneItem<'a>>)
    ensures
        items_view(final(out)@) == items_view(old(out)@) + outline_elem(el@),
    decreases elem_size(el@), 1nat,
{
    let tag = el.tag.as_str();
    if smil_tag(tag) {
        proof {
            assert(items_view(out@) + Seq::<SpecItem>::empty() =~= items_view(out@));
        }
        return;
    }
    if str_eq(tag, "g") {
        let items = outline_children(el);
        let it = SceneItem::Group(el, items);
        proof {
            lemma_items_view_push(out@, it);
            assert(items_view(out@) + seq![item_view(it)] =~= items_view(out@).push(item_view(it)));
        }
        out.push(it);
        return;
    }
    if geometry_tag(tag) {
        let it = SceneItem::Shape(el);
        proof {
            lemma_items_view_push(out@, it);
            assert(items_view(out@) + seq![item_view(it)] =~= items_view(out@).push(item_view(it)));
        }
        out.push(it);
        return;
    }
    let ghost start = items_view(out@);
    let ghost ns = nodes_view(el.children@);
    let n = el.children.len();
    proof {
        lemma_nodes_view(el.children@);
        assert(ns.subrange(0, n as int) =~= ns);
    }
    let mut i: usize = 0;
    while i < n
        invariant
            n == el.children@.len(),
            i <= n,
            ns == nodes_view(el.children@),
            ns == el@.children,
            ns.len() == n,
            forall|k: int| 0 <= k < n ==> #[trigger] ns[k] == node_view(el.children@[k]),
            start + outline_nodes(ns) == items_view(out@) + outline_nodes(
                ns.subrange(i as int, n as int),
            ),
        decreases n - i,
    {
        let ghost sub = ns.subrange(i as int, n as int);
        proof {
            assert(sub[0] == ns[i as int]);
            assert(sub.subrange(1, sub.len() as int) =~= ns.subrange(i + 1, n as int));
        }
        match &el.children[i] {
            XmlNode::Element(c) => {
                proof {
                    assert(ns[i as int] == SpecNode::Element(c@));
                    lemma_child_size(ns, i as int, c@);
                }
                let ghost before = items_view(out@);
                outline_into(c, out);
                proof {
                    assert(before + (outline_elem(c@) + outline_nodes(ns.subrange(i + 1, n as int)))
                        =~= items_view(out@) + outline_nodes(ns.subrange(i + 1, n as int)));
                }
            },
            XmlNode::Text(_) => {
                proof {
                    assert(Seq::<SpecItem>::empty() + outline_nodes(ns.subrange(i + 1, n as int))
                        =~= outline_nodes(ns.subrange(i + 1, n as int)));
                }
            },
        }
        i += 1;
    }
    proof {
        assert(ns.subrange(n as int, n as int) =~= Seq::<SpecNode>::empty());
        assert(items_view(out@) + Seq::<SpecItem>::empty() =~= items_view(out@));
    }
}

/// The items of the children of `el`, in document order (see
/// [`outline_nodes`]): what the group of `el` holds.
pub fn outline_children<'a>(el: &'a XmlElement) -> (r: Vec<SceneItem<'a>>)
    ensures
        items_view(r@) == outline_nodes(el@.children),
    decreases elem_size(el@), 0nat,
{
    let mut out: Vec<SceneItem<'a>> = Vec::new();
    let ghost ns = nodes_view(el.children@);
    let n = el.children.len();
    proof {
        lemma_nodes_view(el.children@);
        assert(ns.subrange(0, n as int) =~= ns);
        assert(items_view(out@) =~= Seq::<SpecItem>::empty());
        assert(Seq::<SpecItem>::empty() + outline_nodes(ns) =~= outline_nodes(ns));
    }
    let mut i: usize = 0;
    while i < n
        invariant
            n == el.children@.len(),
            i <= n,
            ns == nodes_view(el.children@),
            ns == el@.children,
            ns.len() == n,
            forall|k: int| 0 <= k < n ==> #[trigger] ns[k] == node_view(el.children@[k]),
            outline_nodes(ns) == items_view(out@) + outline_nodes(ns.subrange(i as int, n as int)),
        decreases n - i,
    {
        let ghost sub = ns.subrange(i as int, n as int);
        proof {
            assert(sub[0] == ns[i as int]);
            assert(sub.subrange(1, sub.len() as int) =~= ns.subrange(i + 1, n as int));
        }
        match &el.children[i] {
            XmlNode::Element(c) => {
                proof {
                    assert(ns[i as int] == SpecNode::Element(c@));
                    lemma_child_size(ns, i as int, c@);
                }
                let ghost before = items_view(out@);
                outline_into(c, &mut out);
                proof {
                    assert(before + (outline_elem(c@) + outline_nodes(ns.subrange(i + 1, n as int)))
                        =~= items_view(out@) + outline_nodes(ns.subrange(i + 1, n as int)));
                }
            },
            XmlNode::Text(_) => {
                proof {
                    assert(Seq::<SpecItem>::empty() + outline_nodes(ns.subrange(i + 1, n as int))
                        =~= outline_nodes(ns.subrange(i + 1, n as int)));
                }
            },
        }
        i += 1;
    }
    proof {
        assert(ns.subrange(n as int, n as int) =~= Seq::<SpecNode>::empty());
        assert(items_view(out@) + Seq::<SpecItem>::empty() =~= items_view(out@));
    }
    out
}


// ------------------------------------------------------------------
// Reading the document tree
// ------------------------------------------------------------------

/// Reads the XML tree of an SVG document: malformed XML is an
/// [`SvgError::XmlParse`] with the reader's message, and a root element other
/// than `<svg>` is an [`SvgError::InvalidSvg`].
pub fn read_svg_tree(data: &[u8]) -> (r: Result<XmlDocument, SvgError>)
    ensures
        !valid_utf8(data@) ==> (r matches Err(SvgError::XmlParse(m)) && has_prefix(
            m@,
            "Invalid UTF-8: "@,
        )),
        valid_utf8(data@) ==> match spec_parse_xml(data@) {
            Err(m) => r matches Err(SvgError::XmlParse(x)) && x@ == m,
            Ok(root) => if root.tag == "svg"@ {
                r matches Ok(d) && d.root@ == root
            } else {
                r matches Err(SvgError::InvalidSvg(x)) && x@ == "Root element is not <svg>"@
            },
        },
{
    let doc = match parse_xml(data) {
        Ok(d) => d,
        Err(m) => {
            return Err(SvgError::XmlParse(m));
        },
    };
    if !str_eq(doc.root.tag.as_str(), "svg") {
        return Err(SvgError::InvalidSvg(String::from_str("Root element is not <svg>")));
    }
    Ok(doc)
}


// ------------------------------------------------------------------
// How identifiers are numbered
// ------------------------------------------------------------------

/// The elements of the subtree of `e` in document order: `e`, then those of
/// its children.
pub open spec fn preorder(e: SpecElement) -> Seq<SpecElement>
    decreases e,
{
    seq![e] + preorder_nodes(e.children)
}

/// [`preorder`] over the elements of a list of nodes.
pub open spec fn preorder_nodes(ns: Seq<SpecNode>) -> Seq<SpecElement>
    decreases ns,
{
    if ns.len() == 0 {
        Seq::empty()
    } else {
        (match ns[0] {
            SpecNode::Element(x) => preorder(x),
            SpecNode::Text(_) => Seq::empty(),
        }) + preorder_nodes(ns.subrange(1, ns.len() as int))
    }
}

/// How many of the elements need an identifier.
pub open spec fn count_needing(s: Seq<SpecElement>) -> nat
    decreases s.len(),
{
    if s.len() == 0 {
        0
    } else {
        count_needing(s.drop_last()) + (if needs_id(s.last()) {
            1nat
        } else {
            0nat
        })
    }
}

/// The attributes of `e` once identifiers are given, `c` being the number
/// its identifier would take.
pub open spec fn attrs_after(e: SpecElement, c: nat) -> Seq<(Seq<char>, Seq<char>)> {
    if needs_id(e) {
        e.attrs.push(("id"@, auto_id(c)))
    } else {
        e.attrs
    }
}

/// `out` is `orig`, element by element, with the same names and with
/// identifiers numbered from `c` in order.
pub open spec fn numbered_from(orig: Seq<SpecElement>, out: Seq<SpecElement>, c: nat) -> bool {
    &&& out.len() == orig.len()
    &&& forall|j: int|
        0 <= j < orig.len() ==> (#[trigger] out[j]).tag == orig[j].tag && out[j].attrs
            == attrs_after(orig[j], c + count_needing(orig.subrange(0, j)))
}

proof fn lemma_count_concat(x: Seq<SpecElement>, y: Seq<SpecElement>)
    ensures
        count_needing(x + y) == count_needing(x) + count_needing(y),
    decreases y.len(),
{
    if y.len() == 0 {
        assert(x + y =~= x);
    } else {
        assert((x + y).drop_last() =~= x + y.drop_last());
        assert((x + y).last() == y.last());
        lemma_count_concat(x, y.drop_last());
    }
}

proof fn lemma_numbered_concat(
    a1: Seq<SpecElement>,
    b1: Seq<SpecElement>,
    a2: Seq<SpecElement>,
    b2: Seq<SpecElement>,
    c: nat,
)
    requires
        numbered_from(a1, b1, c),
        numbered_from(a2, b2, c + count_needing(a1)),
    ensures
        numbered_from(a1 + a2, b1 + b2, c),
{
    let a = a1 + a2;
    let b = b1 + b2;
    assert forall|j: int| 0 <= j < a.len() implies (#[trigger] b[j]).tag == a[j].tag && b[j].attrs
        == attrs_after(a[j], c + count_needing(a.subrange(0, j))) by {
        if j < a1.len() {
            assert(a.subrange(0, j) =~= a1.subrange(0, j));
            assert(b[j] == b1[j]);
            assert(a[j] == a1[j]);
        } else {
            let i = j - a1.len();
            assert(a.subrange(0, j) =~= a1 + a2.subrange(0, i));
            lemma_count_concat(a1, a2.subrange(0, i));
            assert(b[j] == b2[i]);
            assert(a[j] == a2[i]);
        }
    }
}

proof fn lemma_numbered_elem(e: SpecElement, c: nat)
    ensures
        numbered_from(preorder(e), preorder(spec_assign_elem(e, c).0), c),
        spec_assign_elem(e, c).1 == c + count_needing(preorder(e)),
    decreases e,
{
    let c1: nat = if needs_id(e) {
        c + 1
    } else {
        c
    };
    let out = spec_assign_elem(e, c).0;
    lemma_numbered_nodes(e.children, c1);
    assert(seq![e].drop_last() =~= Seq::<SpecElement>::empty());
    assert(count_needing(Seq::<SpecElement>::empty()) == 0);
    assert(seq![e].last() == e);
    assert(count_needing(seq![e]) == c1 - c);
    assert(seq![e].subrange(0, 0) =~= Seq::<SpecElement>::empty());
    assert(numbered_from(seq![e], seq![out], c));
    lemma_numbered_concat(seq![e], seq![out], preorder_nodes(e.children), preorder_nodes(out.children), c);
    lemma_count_concat(seq![e], preorder_nodes(e.children));
}

proof fn lemma_numbered_nodes(ns: Seq<SpecNode>, c: nat)
    ensures
        numbered_from(preorder_nodes(ns), preorder_nodes(spec_assign_nodes(ns, c).0), c),
        spec_assign_nodes(ns, c).1 == c + count_needing(preorder_nodes(ns)),
    decreases ns,
{
    if ns.len() == 0 {
        assert(preorder_nodes(spec_assign_nodes(ns, c).0) =~= Seq::<SpecElement>::empty());
    } else {
        let rest = ns.subrange(1, ns.len() as int);
        let (n0, c0) = match ns[0] {
            SpecNode::Element(x) => {
                let (x2, cx) = spec_assign_elem(x, c);
                (SpecNode::Element(x2), cx)
            },
            SpecNode::Text(t) => (SpecNode::Text(t), c),
        };
        let a1 = match ns[0] {
            SpecNode::Element(x) => preorder(x),
            SpecNode::Text(_) => Seq::<SpecElement>::empty(),
        };
        let b1 = match n0 {
            SpecNode::Element(x) => preorder(x),
            SpecNode::Text(_) => Seq::<SpecElement>::empty(),
        };
        match ns[0] {
            SpecNode::Element(x) => {
                lemma_numbered_elem(x, c);
            },
            SpecNode::Text(_) => {
                assert(count_needing(a1) == 0);
            },
        }
        lemma_numbered_nodes(rest, c0);
        let outs = spec_assign_nodes(ns, c).0;
        let rest_out = spec_assign_nodes(rest, c0).0;
        assert(outs == seq![n0] + rest_out);
        assert(outs[0] == n0);
        assert(outs.subrange(1, outs.len() as int) =~= rest_out);
        assert(preorder_nodes(outs) == b1 + preorder_nodes(rest_out));
        lemma_numbered_concat(a1, b1, preorder_nodes(rest), preorder_nodes(rest_out), c);
        lemma_count_concat(a1, preorder_nodes(rest));
    }
}

/// Identifiers are handed out in document order: the counter ends at its
/// start `c` plus the number of elements that need one, the `i`-th of them
/// (counting from 0) gets `__smil_target_{c + i}` added after its
/// attributes, and every element keeps its name and its other attributes.
pub proof fn ids_are_numbered_in_document_order(e: SpecElement, c: nat)
    ensures
        numbered_from(preorder(e), preorder(spec_assign_elem(e, c).0), c),
        spec_assign_elem(e, c).1 == c + count_needing(preorder(e)),
{
    lemma_numbered_elem(e, c);
}


// ------------------------------------------------------------------
// What each kind of element contributes to the outline
// ------------------------------------------------------------------

/// Each of the geometry elements `rect`, `circle`, `ellipse`, `line`,
/// `polyline`, `polygon` and `path` contributes exactly one shape, itself;
/// a `g` contributes one group holding its children's items; the SMIL
/// elements `animate`, `set`, `animateTransform` and `animateMotion`
/// contribute nothing.
pub proof fn outline_of_element_kinds(e: SpecElement)
    ensures
        (e.tag == "rect"@ || e.tag == "circle"@ || e.tag == "ellipse"@ || e.tag == "line"@ || e.tag
            == "polyline"@ || e.tag == "polygon"@ || e.tag == "path"@) ==> outline_elem(e) == seq![
            SpecItem::Shape(e),
        ],
        e.tag == "g"@ ==> outline_elem(e) == seq![SpecItem::Group(e, outline_nodes(e.children))],
        (e.tag == "animate"@ || e.tag == "set"@ || e.tag == "animateTransform"@ || e.tag
            == "animateMotion"@) ==> outline_elem(e).len() == 0,
{
    reveal_strlit("rect");
    reveal_strlit("circle");
    reveal_strlit("ellipse");
    reveal_strlit("line");
    reveal_strlit("polyline");
    reveal_strlit("polygon");
    reveal_strlit("path");
    reveal_strlit("g");
    reveal_strlit("animate");
    reveal_strlit("set");
    reveal_strlit("animateTransform");
    reveal_strlit("animateMotion");
    assert("rect"@.len() == 4);
    assert("circle"@.len() == 6);
    assert("ellipse"@.len() == 7);
    assert("line"@.len() == 4);
    assert("polyline"@.len() == 8);
    assert("polygon"@.len() == 7);
    assert("path"@.len() == 4);
    assert("g"@.len() == 1);
    assert("animate"@.len() == 7);
    assert("set"@.len() == 3);
    assert("animateTransform"@.len() == 16);
    assert("animateMotion"@.len() == 13);
    assert("ellipse"@[0] == 'e');
    assert("polygon"@[0] == 'p');
    assert("animate"@[0] == 'a');
}

} // verus!
