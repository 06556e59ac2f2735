//! The parts of reading SMIL animation elements that do not involve numbers:
//! element kinds, keywords and the target of an animation.

use vstd::prelude::*;
use vstd::string::*;
use crate::text::{split_on, split_str, trim, trim_str};
use crate::types::{Additive, CalcMode, FillMode, SmilKind, TransformType};
use crate::parse::{
    assigned_ids_are_complete, elem_size, has_attr, has_smil_child, ids_complete,
    ids_complete_nodes, is_smil_tag, lemma_child_size, spec_assign_elem,
};
use crate::xml::tree::{
    SpecElement, SpecNode, XmlElement, XmlNode, attr_lookup, lemma_nodes_view, node_view,
    nodes_view, str_eq,
};

verus! {

/// The animation kind of an element tag, for the three elements understood.
pub open spec fn spec_smil_kind(tag: Seq<char>) -> Option<SmilKind> {
    if tag == "animate"@ {
        Some(SmilKind::Animate)
    } else if tag == "set"@ {
        Some(SmilKind::SetElement)
    } else if tag == "animateTransform"@ {
        Some(SmilKind::AnimateTransform)
    } else {
        None
    }
}

/// The animation kind of an element tag: `animate`, `set` or
/// `animateTransform`.
pub fn smil_kind_of(tag: &str) -> (r: Option<SmilKind>)
    ensures
        r == spec_smil_kind(tag@),
{
    if str_eq(tag, "animate") {
        Some(SmilKind::Animate)
    } else if str_eq(tag, "set") {
        Some(SmilKind::SetElement)
    } else if str_eq(tag, "animateTransform") {
        Some(SmilKind::AnimateTransform)
    } else {
        None
    }
}

/// What `resolve_target_id` returns: the `href` (trimmed, without a leading
/// `#`) when it is not empty, else the parent's `id`, else the empty string.
pub open spec fn spec_target_id(href: Option<Seq<char>>, parent_id: Option<Seq<char>>) -> Seq<char> {
    match href {
        Some(h) if trim(h).len() > 0 => {
            let t = trim(h);
            if t[0] == '#' {
                t.subrange(1, t.len() as int)
            } else {
                t
            }
        },
        _ => match parent_id {
            Some(id) => id,
            None => Seq::empty(),
        },
    }
}

/// The element that a SMIL element animates: its `href` (a namespace
/// prefix such as `xlink:` has already been removed) without the `#`, else
/// the `id` of its parent, else the empty string.
pub fn resolve_target_id(smil_elem: &XmlElement, parent_id: Option<&str>) -> (r: String)
    ensures
        r@ == spec_target_id(
            attr_lookup(smil_elem@.attrs, "href"@),
            match parent_id {
                Some(p) => Some(p@),
                None => None,
            },
        ),
{
    if let Some(href) = smil_elem.attribute("href") {
        let href = trim_str(href);
        let n = href.unicode_len();
        if n > 0 {
            if href.get_char(0) == '#' {
                return href.substring_char(1, n).to_owned();
            }
            return href.to_owned();
        }
    }
    if let Some(id) = parent_id {
        return id.to_owned();
    }
    String::new()
}

/// The `type` of an `animateTransform`, trimmed; anything unknown is
/// `translate`.
pub open spec fn spec_transform_type(s: Seq<char>) -> TransformType {
    let t = trim(s);
    if t == "rotate"@ {
        TransformType::Rotate
    } else if t == "scale"@ {
        TransformType::Scale
    } else if t == "skewX"@ {
        TransformType::SkewX
    } else if t == "skewY"@ {
        TransformType::SkewY
    } else {
        TransformType::Translate
    }
}

/// Reads the `type` attribute of an `animateTransform`.
pub fn parse_transform_type(s: &str) -> (r: TransformType)
    ensures
        r == spec_transform_type(s@),
{
    let t = trim_str(s);
    if str_eq(t, "rotate") {
        TransformType::Rotate
    } else if str_eq(t, "scale") {
        TransformType::Scale
    } else if str_eq(t, "skewX") {
        TransformType::SkewX
    } else if str_eq(t, "skewY") {
        TransformType::SkewY
    } else {
        TransformType::Translate
    }
}

/// The attributes whose animated values are colours.
pub open spec fn spec_is_color_attribute(a: Seq<char>) -> bool {
    a == "fill"@ || a == "stroke"@ || a == "color"@ || a == "stop-color"@ || a == "flood-color"@
        || a == "lighting-color"@
}

/// Whether an animated attribute holds a colour.
pub fn is_color_attribute(attr: &str) -> (r: bool)
    ensures
        r == spec_is_color_attribute(attr@),
{
    str_eq(attr, "fill") || str_eq(attr, "stroke") || str_eq(attr, "color") || str_eq(
        attr,
        "stop-color",
    ) || str_eq(attr, "flood-color") || str_eq(attr, "lighting-color")
}

/// `calcMode` (absent means `linear`; anything unknown is linear too).
pub open spec fn spec_calc_mode(v: Option<Seq<char>>) -> CalcMode {
    match v {
        Some(s) => if s == "discrete"@ {
            CalcMode::Discrete
        } else if s == "spline"@ {
            CalcMode::Spline
        } else if s == "paced"@ {
            CalcMode::Paced
        } else {
            CalcMode::Linear
        },
        None => CalcMode::Linear,
    }
}

/// Reads `calcMode`.
pub fn parse_calc_mode(v: Option<&str>) -> (r: CalcMode)
    ensures
        r == spec_calc_mode(
            match v {
                Some(s) => Some(s@),
                None => None,
            },
        ),
{
    match v {
        Some(s) => {
            if str_eq(s, "discrete") {
                CalcMode::Discrete
            } else if str_eq(s, "spline") {
                CalcMode::Spline
            } else if str_eq(s, "paced") {
                CalcMode::Paced
            } else {
                CalcMode::Linear
            }
        },
        None => CalcMode::Linear,
    }
}

/// Reads `additive`: `sum` adds, anything else (or nothing) replaces.
pub fn parse_additive(v: Option<&str>) -> (r: Additive)
    ensures
        r == (if v matches Some(s) && s@ == "sum"@ {
            Additive::Sum
        } else {
            Additive::Replace
        }),
{
    match v {
        Some(s) => {
            if str_eq(s, "sum") {
                Additive::Sum
            } else {
                Additive::Replace
            }
        },
        None => Additive::Replace,
    }
}

/// Reads the animation `fill`: `freeze` keeps the last value, anything else
/// (or nothing) removes the effect.
pub fn parse_fill_mode(v: Option<&str>) -> (r: FillMode)
    ensures
        r == (if v matches Some(s) && s@ == "freeze"@ {
            FillMode::Freeze
        } else {
            FillMode::Remove
        }),
{
    match v {
        Some(s) => {
            if str_eq(s, "freeze") {
                FillMode::Freeze
            } else {
                FillMode::Remove
            }
        },
        None => FillMode::Remove,
    }
}

/// Whether a `repeatCount` repeats without end (the value is compared after
/// trimming).
pub fn is_indefinite(s: &str) -> (r: bool)
    ensures
        r == (trim(s@) == "indefinite"@),
{
    str_eq(trim_str(s), "indefinite")
}


// ------------------------------------------------------------------
// Where the animations are
// ------------------------------------------------------------------

/// A SMIL animation element of the tree, with its kind and the `id` of the
/// element it animates.
#[derive(Debug)]
pub struct AnimationSite<'a> {
    pub element: &'a XmlElement,
    pub kind: SmilKind,
    pub target_id: String,
}

/// The mathematical form of [`AnimationSite`].
pub struct SpecSite {
    pub element: SpecElement,
    pub kind: SmilKind,
    pub target_id: Seq<char>,
}

impl<'a> View for AnimationSite<'a> {
    type V = SpecSite;

    open spec fn view(&self) -> SpecSite {
        SpecSite { element: self.element@, kind: self.kind, target_id: self.target_id@ }
    }
}

/// The views of a list of sites.
pub open spec fn sites_view<'a>(v: Seq<AnimationSite<'a>>) -> Seq<SpecSite> {
    v.map_values(|s: AnimationSite<'a>| s@)
}

/// The animation elements of the subtree of `e`, in document order: an
/// `animate`, `set` or `animateTransform` element animates its `href`, else
/// the element it stands in (`parent_id` is that element's `id`).
pub open spec fn spec_sites(e: SpecElement, parent_id: Option<Seq<char>>) -> Seq<SpecSite>
    decreases e,
{
    let here = match spec_smil_kind(e.tag) {
        Some(k) => seq![
            SpecSite {
                element: e,
                kind: k,
                target_id: spec_target_id(attr_lookup(e.attrs, "href"@), parent_id),
            },
        ],
        None => seq![],
    };
    here + spec_sites_nodes(e.children, attr_lookup(e.attrs, "id"@))
}

/// [`spec_sites`] over the elements of a list of nodes, whose parent has the
/// `id` `parent_id`.
pub open spec fn spec_sites_nodes(ns: Seq<SpecNode>, parent_id: Option<Seq<char>>) -> Seq<SpecSite>
    decreases ns,
{
    if ns.len() == 0 {
        seq![]
    } else {
        (match ns[0] {
            SpecNode::Element(c) => spec_sites(c, parent_id),
            SpecNode::Text(_) => seq![],
        }) + spec_sites_nodes(ns.subrange(1, ns.len() as int), parent_id)
    }
}

/// The view of an optional string.
pub open spec fn opt_str(s: Option<&str>) -> Option<Seq<char>> {
    match s {
        Some(x) => Some(x@),
        None => None,
    }
}

fn collect_sites<'a>(e: &'a XmlElement, parent_id: Option<&str>, out: &mut Vec<AnimationSite<'a>>)
    ensures
        sites_view(final(out)@) == sites_view(old(out)@) + spec_sites(e@, opt_str(parent_id)),
    decreases elem_size(e@),
{
    let ghost start = sites_view(out@);
    let ghost here: Seq<SpecSite> = match spec_smil_kind(e@.tag) {
        Some(k) => seq![
            SpecSite {
                element: e@,
                kind: k,
                target_id: spec_target_id(attr_lookup(e@.attrs, "href"@), opt_str(parent_id)),
            },
        ],
        None => seq![],
    };
    if let Some(kind) = smil_kind_of(e.tag.as_str()) {
        let target_id = resolve_target_id(e, parent_id);
        let site = AnimationSite { element: e, kind, target_id };
        proof {
            assert(sites_view(out@.push(site)) =~= sites_view(out@) + seq![site@]);
        }
        out.push(site);
    }
    let current_id = e.attribute("id");
    let ghost ns = nodes_view(e.children@);
    let ghost pid = opt_str(current_id);
    let n = e.children.len();
    proof {
        lemma_nodes_view(e.children@);
        assert(ns.subrange(0, n as int) =~= ns);
        assert(sites_view(out@) == start + here);
    }
    let mut i: usize = 0;
    while i < n
        invariant
            n == e.children@.len(),
            i <= n,
            ns == nodes_view(e.children@),
            ns.len() == n,
            forall|k: int| 0 <= k < n ==> #[trigger] ns[k] == node_view(e.children@[k]),
            pid == opt_str(current_id),
            pid == attr_lookup(e@.attrs, "id"@),
            start + spec_sites(e@, opt_str(parent_id)) == sites_view(out@) + spec_sites_nodes(
                ns.subrange(i as int, n as int),
                pid,
            ),
        decreases n - i,
    {
        let ghost sub = ns.subrange(i as int, n as int);
        proof {
            assert(sub[0] == ns[i as int]);
            assert(sub.subrange(1, sub.len() as int) =~= ns.subrange(i + 1, n as int));
        }
        match &e.children[i] {
            XmlNode::Element(c) => {
                proof {
                    assert(ns[i as int] == SpecNode::Element(c@));
                    lemma_child_size(ns, i as int, c@);
                }
                let ghost before = sites_view(out@);
                collect_sites(c, current_id, out);
                proof {
                    assert(before + (spec_sites(c@, pid) + spec_sites_nodes(
                        ns.subrange(i + 1, n as int),
                        pid,
                    )) =~= sites_view(out@) + spec_sites_nodes(ns.subrange(i + 1, n as int), pid));
                }
            },
            XmlNode::Text(_) => {
                proof {
                    assert(Seq::<SpecSite>::empty() + spec_sites_nodes(ns.subrange(i + 1, n as int), pid)
                        =~= spec_sites_nodes(ns.subrange(i + 1, n as int), pid));
                }
            },
        }
        i += 1;
    }
    proof {
        assert(ns.subrange(n as int, n as int) =~= Seq::<SpecNode>::empty());
        assert(sites_view(out@) + Seq::<SpecSite>::empty() =~= sites_view(out@));
    }
}

/// The SMIL animation elements of the tree under `root`, in document order,
/// each with its kind and the `id` of the element it animates (see
/// [`spec_sites`]). Reading each one's timing and values is the caller's
/// work.
pub fn animation_sites(root: &XmlElement) -> (r: Vec<AnimationSite<'_>>)
    ensures
        sites_view(r@) == spec_sites(root@, None),
{
    let mut out: Vec<AnimationSite<'_>> = Vec::new();
    proof {
        assert(sites_view(out@) =~= Seq::<SpecSite>::empty());
    }
    collect_sites(root, None, &mut out);
    proof {
        assert(Seq::<SpecSite>::empty() + spec_sites(root@, None) =~= spec_sites(root@, None));
    }
    out
}


// ------------------------------------------------------------------
// Which texts hold an animation's values
// ------------------------------------------------------------------

/// The texts of an animation's values, as its attributes give them.
#[derive(Debug)]
pub enum ValueTexts<'a> {
    /// `values`: the pieces between `;`, each trimmed.
    List(Vec<&'a str>),
    /// `from` and `to`, trimmed.
    FromTo(&'a str, &'a str),
    /// `from` and `by` (no `to`), trimmed: the values are `from` and
    /// `from + by`.
    FromBy(&'a str, &'a str),
    /// `to` alone (no `from`), trimmed.
    To(&'a str),
    /// No values are given.
    Absent,
}

/// The mathematical form of [`ValueTexts`].
pub enum SpecValueTexts {
    List(Seq<Seq<char>>),
    FromTo(Seq<char>, Seq<char>),
    FromBy(Seq<char>, Seq<char>),
    To(Seq<char>),
    Absent,
}

impl<'a> View for ValueTexts<'a> {
    type V = SpecValueTexts;

    open spec fn view(&self) -> SpecValueTexts {
        match self {
            ValueTexts::List(v) => SpecValueTexts::List(v@.map_values(|p: &str| p@)),
            ValueTexts::FromTo(f, t) => SpecValueTexts::FromTo(f@, t@),
            ValueTexts::FromBy(f, b) => SpecValueTexts::FromBy(f@, b@),
            ValueTexts::To(t) => SpecValueTexts::To(t@),
            ValueTexts::Absent => SpecValueTexts::Absent,
        }
    }
}

/// Where the values come from: `values` when it is there, else `from` with
/// `to`, else `from` with `by`, else `to` alone.
pub open spec fn spec_value_texts(a: Seq<(Seq<char>, Seq<char>)>) -> SpecValueTexts {
    match attr_lookup(a, "values"@) {
        Some(v) => SpecValueTexts::List(split_on(v, ';').map_values(|p: Seq<char>| trim(p))),
        None => match (attr_lookup(a, "from"@), attr_lookup(a, "to"@), attr_lookup(a, "by"@)) {
            (Some(f), Some(t), _) => SpecValueTexts::FromTo(trim(f), trim(t)),
            (Some(f), None, Some(b)) => SpecValueTexts::FromBy(trim(f), trim(b)),
            (None, Some(t), _) => SpecValueTexts::To(trim(t)),
            _ => SpecValueTexts::Absent,
        },
    }
}

/// The texts of the values of the animation element `elem` (see
/// [`spec_value_texts`]); reading each as a number, colour or transform is
/// the caller's work.
pub fn value_texts(elem: &XmlElement) -> (r: ValueTexts<'_>)
    ensures
        r@ == spec_value_texts(elem@.attrs),
{
    if let Some(values) = elem.attribute("values") {
        let pieces = split_str(values, ';');
        let mut out: Vec<&str> = Vec::new();
        let mut i: usize = 0;
        while i < pieces.len()
            invariant
                i <= pieces@.len(),
                pieces@.len() == split_on(values@, ';').len(),
                forall|k: int|
                    0 <= k < pieces@.len() ==> (#[trigger] pieces@[k])@ == split_on(values@, ';')[k],
                out@.len() == i,
                forall|k: int| 0 <= k < i ==> (#[trigger] out@[k])@ == trim(split_on(values@, ';')[k]),
            decreases pieces.len() - i,
        {
            out.push(trim_str(pieces[i]));
            i += 1;
        }
        proof {
            assert(out@.map_values(|p: &str| p@) =~= split_on(values@, ';').map_values(
                |p: Seq<char>| trim(p),
            ));
        }
        return ValueTexts::List(out);
    }
    let from = elem.attribute("from");
    let to = elem.attribute("to");
    let by = elem.attribute("by");
    match (from, to, by) {
        (Some(f), Some(t), _) => ValueTexts::FromTo(trim_str(f), trim_str(t)),
        (Some(f), None, Some(b)) => ValueTexts::FromBy(trim_str(f), trim_str(b)),
        (None, Some(t), _) => ValueTexts::To(trim_str(t)),
        _ => ValueTexts::Absent,
    }
}


/// The attribute an animation element animates: its `attributeName`; when
/// that is missing, the empty name for a `set` and `None` (the element is
/// skipped) for the others.
pub fn animated_attribute(elem: &XmlElement, kind: SmilKind) -> (r: Option<String>)
    ensures
        match attr_lookup(elem@.attrs, "attributeName"@) {
            Some(a) => r matches Some(x) && x@ == a,
            None => if kind == SmilKind::SetElement {
                r matches Some(x) && x@ == Seq::<char>::empty()
            } else {
                r is None
            },
        },
{
    match elem.attribute("attributeName") {
        Some(a) => Some(a.to_owned()),
        None => {
            if kind == SmilKind::SetElement {
                Some(String::new())
            } else {
                None
            }
        },
    }
}


// ------------------------------------------------------------------
// Every animation has a target once identifiers are assigned
// ------------------------------------------------------------------

/// A non-blank `href`.
pub open spec fn has_href(e: SpecElement) -> bool {
    attr_lookup(e.attrs, "href"@) matches Some(h) && trim(h).len() > 0
}

/// Every animation element of the subtree of `e` takes its target from an
/// `href` or from an `id` of the element it stands in; `parent_has_id` says
/// whether the element `e` stands in has one.
pub open spec fn targets_found(e: SpecElement, parent_has_id: bool) -> bool
    decreases e,
{
    (spec_smil_kind(e.tag) is Some ==> has_href(e) || parent_has_id) && targets_found_nodes(
        e.children,
        attr_lookup(e.attrs, "id"@) is Some,
    )
}

/// [`targets_found`] for the elements of a list of nodes.
pub open spec fn targets_found_nodes(ns: Seq<SpecNode>, parent_has_id: bool) -> bool
    decreases ns,
{
    if ns.len() == 0 {
        true
    } else {
        (match ns[0] {
            SpecNode::Element(c) => targets_found(c, parent_has_id),
            SpecNode::Text(_) => true,
        }) && targets_found_nodes(ns.subrange(1, ns.len() as int), parent_has_id)
    }
}

proof fn lemma_has_attr_lookup(a: Seq<(Seq<char>, Seq<char>)>, key: Seq<char>)
    ensures
        has_attr(a, key) <==> attr_lookup(a, key) is Some,
    decreases a.len(),
{
    if a.len() > 0 {
        let rest = a.subrange(1, a.len() as int);
        lemma_has_attr_lookup(rest, key);
        if has_attr(a, key) && a[0].0 != key {
            let k = choose|k: int| 0 <= k < a.len() && (#[trigger] a[k]).0 == key;
            assert(rest[k - 1] == a[k]);
        }
        if has_attr(rest, key) {
            let k = choose|k: int| 0 <= k < rest.len() && (#[trigger] rest[k]).0 == key;
            assert(a[k + 1] == rest[k]);
        }
    }
}

proof fn lemma_targets_found(e: SpecElement, parent_has_id: bool)
    requires
        ids_complete(e),
        spec_smil_kind(e.tag) is Some ==> has_href(e) || parent_has_id,
    ensures
        targets_found(e, parent_has_id),
    decreases e,
{
    lemma_has_attr_lookup(e.attrs, "id"@);
    lemma_targets_found_nodes(e.children, attr_lookup(e.attrs, "id"@) is Some);
}

proof fn lemma_targets_found_nodes(ns: Seq<SpecNode>, parent_has_id: bool)
    requires
        ids_complete_nodes(ns),
        has_smil_child(ns) ==> parent_has_id,
    ensures
        targets_found_nodes(ns, parent_has_id),
    decreases ns,
{
    if ns.len() > 0 {
        let rest = ns.subrange(1, ns.len() as int);
        if has_smil_child(rest) {
            let k = choose|k: int|
                0 <= k < rest.len() && (#[trigger] rest[k] matches SpecNode::Element(c)
                    && is_smil_tag(c.tag));
            assert(ns[k + 1] == rest[k]);
        }
        lemma_targets_found_nodes(rest, parent_has_id);
        if let SpecNode::Element(c) = ns[0] {
            if spec_smil_kind(c.tag) is Some {
                assert(ns[0] matches SpecNode::Element(c) && is_smil_tag(c.tag));
            }
            lemma_targets_found(c, parent_has_id);
        }
    }
}

/// Once identifiers are assigned, every animation element below a root that
/// is no animation itself has a target: its `href`, or else the `id` of the
/// element it stands in.
pub proof fn assigned_ids_give_targets(root: SpecElement, c: nat)
    requires
        spec_smil_kind(root.tag) is None,
    ensures
        targets_found(spec_assign_elem(root, c).0, false),
{
    assigned_ids_are_complete(root, c);
    let r = spec_assign_elem(root, c).0;
    assert(r.tag == root.tag);
    lemma_targets_found(r, false);
}


// ------------------------------------------------------------------
// Keywords
// ------------------------------------------------------------------

/// Each of the type names `scale`, `rotate`, `skewX` and `skewY`, trimmed,
/// gives its own transform; `translate` and any other text give a
/// translation.
pub proof fn transform_type_names(s: Seq<char>)
    ensures
        spec_transform_type(s) == TransformType::Scale <==> trim(s) == "scale"@,
        spec_transform_type(s) == TransformType::Rotate <==> trim(s) == "rotate"@,
        spec_transform_type(s) == TransformType::SkewX <==> trim(s) == "skewX"@,
        spec_transform_type(s) == TransformType::SkewY <==> trim(s) == "skewY"@,
        spec_transform_type(s) == TransformType::Translate <==> !(trim(s) == "scale"@ || trim(s)
            == "rotate"@ || trim(s) == "skewX"@ || trim(s) == "skewY"@),
{
    reveal_strlit("scale");
    reveal_strlit("rotate");
    reveal_strlit("skewX");
    reveal_strlit("skewY");
    assert("scale"@.len() == 5);
    assert("rotate"@.len() == 6);
    assert("skewX"@.len() == 5);
    assert("skewY"@.len() == 5);
    assert("scale"@[1] == 'c');
    assert("skewX"@[1] == 'k');
    assert("skewY"@[1] == 'k');
    assert("skewX"@[4] == 'X');
    assert("skewY"@[4] == 'Y');
}

/// The attributes whose animated values are colours are exactly `fill`,
/// `stroke`, `color`, `stop-color`, `flood-color` and `lighting-color`.
pub proof fn colour_attribute_names(a: Seq<char>)
    ensures
        spec_is_color_attribute(a) <==> (a == "fill"@ || a == "stroke"@ || a == "color"@ || a
            == "stop-color"@ || a == "flood-color"@ || a == "lighting-color"@),
        spec_is_color_attribute("fill"@),
        spec_is_color_attribute("stroke"@),
        spec_is_color_attribute("color"@),
        spec_is_color_attribute("stop-color"@),
        spec_is_color_attribute("flood-color"@),
        spec_is_color_attribute("lighting-color"@),
{
}


/// The animation elements are exactly `animate`, `set` and
/// `animateTransform`, each of its own kind.
pub proof fn animation_element_names(t: Seq<char>)
    ensures
        spec_smil_kind(t) == Some(SmilKind::Animate) <==> t == "animate"@,
        spec_smil_kind(t) == Some(SmilKind::SetElement) <==> t == "set"@,
        spec_smil_kind(t) == Some(SmilKind::AnimateTransform) <==> t == "animateTransform"@,
        spec_smil_kind(t) is None <==> !(t == "animate"@ || t == "set"@ || t == "animateTransform"@),
{
    reveal_strlit("animate");
    reveal_strlit("set");
    reveal_strlit("animateTransform");
    assert("animate"@.len() == 7);
    assert("set"@.len() == 3);
    assert("animateTransform"@.len() == 16);
}

/// `calcMode` is `discrete`, `spline` or `paced` when spelt so, and linear
/// otherwise, absent included.
pub proof fn calc_mode_names(v: Option<Seq<char>>)
    ensures
        spec_calc_mode(v) == CalcMode::Discrete <==> v == Some("discrete"@),
        spec_calc_mode(v) == CalcMode::Spline <==> v == Some("spline"@),
        spec_calc_mode(v) == CalcMode::Paced <==> v == Some("paced"@),
        spec_calc_mode(v) == CalcMode::Linear <==> !(v == Some("discrete"@) || v == Some(
            "spline"@,
        ) || v == Some("paced"@)),
{
    reveal_strlit("discrete");
    reveal_strlit("spline");
    reveal_strlit("paced");
    assert("discrete"@.len() == 8);
    assert("spline"@.len() == 6);
    assert("paced"@.len() == 5);
}

} // verus!
