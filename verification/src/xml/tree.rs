//! Builds an element tree from the tokens, removing namespace prefixes and
//! `xmlns` declarations and dropping text that is only whitespace.

use vstd::prelude::*;
use vstd::utf8::*;
use vstd::string::*;
use crate::text::{concat_str, is_white_space, white_space};
use crate::xml::tokenizer::{
    SpecToken, XmlToken, attrs_view, has_prefix, spec_tokenize, tokenize, tokens_view,
};

verus! {

broadcast use vstd::seq::group_seq_axioms;

/// A parsed XML document.
#[derive(Debug, PartialEq)]
pub struct XmlDocument {
    pub root: XmlElement,
}

/// An element: its tag, its attributes in document order and its children.
#[derive(Debug, PartialEq)]
pub struct XmlElement {
    pub tag: String,
    pub attrs: Vec<(String, String)>,
    pub children: Vec<XmlNode>,
}

/// A child of an element.
#[derive(Debug, PartialEq)]
pub enum XmlNode {
    Element(XmlElement),
    Text(String),
}

/// What an element holds, as character sequences.
pub struct SpecElement {
    pub tag: Seq<char>,
    pub attrs: Seq<(Seq<char>, Seq<char>)>,
    pub children: Seq<SpecNode>,
}

/// What a child node holds.
pub enum SpecNode {
    Element(SpecElement),
    Text(Seq<char>),
}

/// The view of an element.
pub open spec fn elem_view(e: XmlElement) -> SpecElement
    decreases e,
{
    SpecElement { tag: e.tag@, attrs: attrs_view(e.attrs@), children: nodes_view(e.children@) }
}

/// The views of a list of nodes.
pub open spec fn nodes_view(ns: Seq<XmlNode>) -> Seq<SpecNode>
    decreases ns,
{
    if ns.len() == 0 {
        Seq::empty()
    } else {
        nodes_view(ns.subrange(0, ns.len() - 1)).push(node_view(ns[ns.len() - 1]))
    }
}

/// The view of a node.
pub open spec fn node_view(n: XmlNode) -> SpecNode
    decreases n,
{
    match n {
        XmlNode::Element(e) => SpecNode::Element(elem_view(e)),
        XmlNode::Text(t) => SpecNode::Text(t@),
    }
}

impl View for XmlElement {
    type V = SpecElement;

    open spec fn view(&self) -> SpecElement {
        elem_view(*self)
    }
}

impl View for XmlNode {
    type V = SpecNode;

    open spec fn view(&self) -> SpecNode {
        node_view(*self)
    }
}

/// `nodes_view` has one entry per node, in order.
pub proof fn lemma_nodes_view(ns: Seq<XmlNode>)
    ensures
        nodes_view(ns).len() == ns.len(),
        forall|k: int| 0 <= k < ns.len() ==> #[trigger] nodes_view(ns)[k] == node_view(ns[k]),
    decreases ns.len(),
{
    if ns.len() > 0 {
        let pre = ns.subrange(0, ns.len() - 1);
        lemma_nodes_view(pre);
        assert forall|k: int| 0 <= k < ns.len() implies #[trigger] nodes_view(ns)[k] == node_view(
            ns[k],
        ) by {
            if k < ns.len() - 1 {
                assert(pre[k] == ns[k]);
            }
        }
    }
}

/// The views of a list of nodes grow with it.
pub proof fn lemma_nodes_view_push(ns: Seq<XmlNode>, n: XmlNode)
    ensures
        nodes_view(ns.push(n)) == nodes_view(ns).push(node_view(n)),
{
    assert(ns.push(n).subrange(0, ns.len() as int) =~= ns);
}

// ------------------------------------------------------------------
// Names and whitespace
// ------------------------------------------------------------------

/// The index of the last `:` among the first `j` characters.
pub open spec fn last_colon(s: Seq<char>, j: int) -> Option<int>
    decreases j,
{
    if j <= 0 || j > s.len() {
        None
    } else if s[j - 1] == ':' {
        Some(j - 1)
    } else {
        last_colon(s, j - 1)
    }
}

/// A name without its namespace prefix: what follows the last `:`.
pub open spec fn strip_ns(s: Seq<char>) -> Seq<char> {
    match last_colon(s, s.len() as int) {
        Some(k) => s.subrange(k + 1, s.len() as int),
        None => s,
    }
}

/// An `xmlns` or `xmlns:prefix` attribute name.
pub open spec fn is_xmlns(k: Seq<char>) -> bool {
    k == "xmlns"@ || has_prefix(k, "xmlns:"@)
}

/// The attributes that are kept, with their names stripped of prefixes.
pub open spec fn normalize(a: Seq<(Seq<char>, Seq<char>)>) -> Seq<(Seq<char>, Seq<char>)>
    decreases a.len(),
{
    if a.len() == 0 {
        Seq::empty()
    } else {
        let rest = normalize(a.subrange(0, a.len() - 1));
        let (k, v) = a[a.len() - 1];
        if is_xmlns(k) {
            rest
        } else {
            rest.push((strip_ns(k), v))
        }
    }
}

/// Text that `str::trim` empties: whitespace only (or nothing).
pub open spec fn is_blank(t: Seq<char>) -> bool {
    forall|k: int| 0 <= k < t.len() ==> is_white_space(#[trigger] t[k])
}

// ------------------------------------------------------------------
// The tree builder, as a spec function over the tokens
// ------------------------------------------------------------------

/// A fresh element for a start tag.
pub open spec fn new_elem(name: Seq<char>, attrs: Seq<(Seq<char>, Seq<char>)>) -> SpecElement {
    SpecElement { tag: strip_ns(name), attrs: normalize(attrs), children: Seq::empty() }
}

/// The stack with `n` added as the last child of its top element.
pub open spec fn add_child(stack: Seq<SpecElement>, n: SpecNode) -> Seq<SpecElement> {
    let top = stack[stack.len() - 1];
    stack.update(
        stack.len() - 1,
        SpecElement { tag: top.tag, attrs: top.attrs, children: top.children.push(n) },
    )
}

/// The element children of a list of nodes, in order.
pub open spec fn element_children(ns: Seq<XmlNode>) -> Seq<XmlElement>
    decreases ns.len(),
{
    if ns.len() == 0 {
        Seq::empty()
    } else {
        let rest = element_children(ns.subrange(0, ns.len() - 1));
        match ns[ns.len() - 1] {
            XmlNode::Element(e) => rest.push(e),
            XmlNode::Text(_) => rest,
        }
    }
}

/// The tags of the elements on the stack.
pub open spec fn stack_tags(stack: Seq<SpecElement>) -> Seq<Seq<char>> {
    stack.map_values(|e: SpecElement| e.tag)
}

/// The `Debug` rendering of a list of strings, as `format!("{:?}", v)` writes
/// it for a `Vec<String>`.
pub uninterp spec fn debug_string_list(items: Seq<Seq<char>>) -> Seq<char>;

/// The tree built from the tokens `toks[i..]` with the open elements `stack`.
pub open spec fn spec_build(toks: Seq<SpecToken>, i: int, stack: Seq<SpecElement>) -> Result<
    SpecElement,
    Seq<char>,
>
    decreases toks.len() - i,
{
    if i < 0 || i >= toks.len() {
        if stack.len() == 1 {
            Ok(stack[0])
        } else if stack.len() == 0 {
            Err("No root element found"@)
        } else {
            Err("Unclosed elements: "@ + debug_string_list(stack_tags(stack)))
        }
    } else {
        match toks[i] {
            SpecToken::OpenTag { name, attrs } => spec_build(
                toks,
                i + 1,
                stack.push(new_elem(name, attrs)),
            ),
            SpecToken::CloseTag { name } => {
                let local = strip_ns(name);
                if stack.len() == 0 {
                    Err("Unexpected close tag '</"@ + local + ">' with empty stack"@)
                } else {
                    let top = stack[stack.len() - 1];
                    if top.tag != local {
                        Err("Mismatched tags: expected '</"@ + top.tag + ">', found '</"@ + local
                            + ">'"@)
                    } else if stack.len() == 1 {
                        Ok(top)
                    } else {
                        spec_build(
                            toks,
                            i + 1,
                            add_child(stack.subrange(0, stack.len() - 1), SpecNode::Element(top)),
                        )
                    }
                }
            },
            SpecToken::SelfClosingTag { name, attrs } => {
                let e = new_elem(name, attrs);
                if stack.len() == 0 {
                    Ok(e)
                } else {
                    spec_build(toks, i + 1, add_child(stack, SpecNode::Element(e)))
                }
            },
            SpecToken::Text(t) => if is_blank(t) || stack.len() == 0 {
                spec_build(toks, i + 1, stack)
            } else {
                spec_build(toks, i + 1, add_child(stack, SpecNode::Text(t)))
            },
        }
    }
}

/// The root element read from the bytes `b`, or the error met first.
pub open spec fn spec_parse_xml(b: Seq<u8>) -> Result<SpecElement, Seq<char>> {
    match spec_tokenize(b) {
        Err(m) => Err(m),
        Ok(toks) => if toks.len() == 0 {
            Err("Empty document"@)
        } else {
            spec_build(toks, 0, Seq::empty())
        },
    }
}

// ------------------------------------------------------------------
// Executable part
// ------------------------------------------------------------------

/// Calls `format!("{:?}", items)`: the `Debug` text of a list of strings.
/// Claimed of it: the text depends on the strings alone (it is
/// [`debug_string_list`] of their characters).
#[verifier::external_body]
fn debug_strings(items: &Vec<String>) -> (r: String)
    ensures
        r@ == debug_string_list(items@.map_values(|s: String| s@)),
{
    format!("{:?}", items)
}

/// Whether two strings hold the same characters.
pub fn str_eq(s: &str, t: &str) -> (r: bool)
    ensures
        r == (s@ == t@),
{
    let n = s.unicode_len();
    if n != t.unicode_len() {
        return false;
    }
    let mut i: usize = 0;
    while i < n
        invariant
            n == s@.len(),
            n == t@.len(),
            i <= n,
            forall|j: int| 0 <= j < i ==> s@[j] == t@[j],
        decreases n - i,
    {
        if s.get_char(i) != t.get_char(i) {
            return false;
        }
        i += 1;
    }
    proof {
        assert(s@ =~= t@);
    }
    true
}

/// Whether `s` begins with the characters of `p`.
pub fn str_has_prefix(s: &str, p: &str) -> (r: bool)
    ensures
        r == has_prefix(s@, p@),
{
    let n = p.unicode_len();
    if n > s.unicode_len() {
        return false;
    }
    let mut i: usize = 0;
    while i < n
        invariant
            n == p@.len(),
            n <= s@.len(),
            i <= n,
            forall|j: int| 0 <= j < i ==> s@[j] == p@[j],
        decreases n - i,
    {
        if s.get_char(i) != p.get_char(i) {
            proof {
                assert(s@.subrange(0, n as int)[i as int] != p@[i as int]);
            }
            return false;
        }
        i += 1;
    }
    proof {
        assert(s@.subrange(0, n as int) =~= p@);
    }
    true
}

/// Removes the namespace prefix of a name: `svg:rect` becomes `rect`,
/// `xlink:href` becomes `href`; a name without `:` is returned unchanged.
pub fn strip_ns_prefix(name: &str) -> (r: String)
    ensures
        r@ == strip_ns(name@),
{
    let n = name.unicode_len();
    let mut j = n;
    while j > 0 && name.get_char(j - 1) != ':'
        invariant
            n == name@.len(),
            j <= n,
            last_colon(name@, n as int) == last_colon(name@, j as int),
        decreases j,
    {
        j -= 1;
    }
    if j == 0 {
        name.to_owned()
    } else {
        name.substring_char(j, n).to_owned()
    }
}

/// Whether an attribute name is `xmlns` or `xmlns:prefix`.
fn is_xmlns_name(k: &str) -> (r: bool)
    ensures
        r == is_xmlns(k@),
{
    str_eq(k, "xmlns") || str_has_prefix(k, "xmlns:")
}

/// Drops `xmlns` and `xmlns:*` attributes and removes the namespace prefix of
/// the remaining attribute names.
pub fn normalize_attrs(attrs: Vec<(String, String)>) -> (r: Vec<(String, String)>)
    ensures
        attrs_view(r@) == normalize(attrs_view(attrs@)),
{
    let mut out: Vec<(String, String)> = Vec::new();
    let mut rest = attrs;
    let ghost all = attrs_view(rest@);
    // Walk the attributes from the front by reversing them first.
    let mut rev: Vec<(String, String)> = Vec::new();
    let ghost n = rest@.len();
    while rest.len() > 0
        invariant
            rest@.len() + rev@.len() == n,
            n == all.len(),
            forall|k: int| 0 <= k < rest@.len() ==> (#[trigger] rest@[k]).0@ == all[k].0 && rest@[k].1@
                == all[k].1,
            forall|k: int|
                0 <= k < rev@.len() ==> (#[trigger] rev@[k]).0@ == all[n - 1 - k].0 && rev@[k].1@
                    == all[n - 1 - k].1,
        decreases rest.len(),
    {
        let p = rest.pop().unwrap();
        rev.push(p);
    }
    proof {
        assert(attrs_view(out@) =~= normalize(all.subrange(0, 0)));
    }
    while rev.len() > 0
        invariant
            rev@.len() <= n,
            n == all.len(),
            forall|k: int|
                0 <= k < rev@.len() ==> (#[trigger] rev@[k]).0@ == all[n - 1 - k].0 && rev@[k].1@
                    == all[n - 1 - k].1,
            attrs_view(out@) == normalize(all.subrange(0, n - rev@.len())),
        decreases rev.len(),
    {
        let ghost i = n - rev@.len();
        let (k, v) = rev.pop().unwrap();
        proof {
            assert(all.subrange(0, i + 1).subrange(0, i) =~= all.subrange(0, i));
            assert(all.subrange(0, i + 1)[i] == all[i]);
        }
        if !is_xmlns_name(k.as_str()) {
            let nk = strip_ns_prefix(k.as_str());
            let ghost before = out@;
            out.push((nk, v));
            proof {
                assert(attrs_view(out@) =~= attrs_view(before).push((nk@, v@)));
            }
        }
    }
    proof {
        assert(all.subrange(0, n as int) =~= all);
    }
    out
}

/// Whether a text is whitespace only (what `text.trim().is_empty()` tests).
pub fn blank(t: &str) -> (r: bool)
    ensures
        r == is_blank(t@),
{
    let n = t.unicode_len();
    let mut i: usize = 0;
    while i < n
        invariant
            n == t@.len(),
            i <= n,
            forall|j: int| 0 <= j < i ==> is_white_space(#[trigger] t@[j]),
        decreases n - i,
    {
        if !white_space(t.get_char(i)) {
            return false;
        }
        i += 1;
    }
    true
}

/// The value of the first attribute called `key`.
pub open spec fn attr_lookup(a: Seq<(Seq<char>, Seq<char>)>, key: Seq<char>) -> Option<Seq<char>>
    decreases a.len(),
{
    if a.len() == 0 {
        None
    } else if a[0].0 == key {
        Some(a[0].1)
    } else {
        attr_lookup(a.subrange(1, a.len() as int), key)
    }
}

impl XmlElement {
    /// The value of the first attribute called `name`, if there is one.
    pub fn attribute(&self, name: &str) -> (r: Option<&str>)
        ensures
            r matches Some(v) ==> attr_lookup(self@.attrs, name@) == Some(v@),
            r is None ==> attr_lookup(self@.attrs, name@) is None,
            match r {
                Some(v) => exists|k: int|
                    0 <= k < self.attrs@.len() && (#[trigger] self.attrs@[k]).0@ == name@
                        && self.attrs@[k].1@ == v@ && forall|j: int|
                        0 <= j < k ==> (#[trigger] self.attrs@[j]).0@ != name@,
                None => forall|k: int|
                    0 <= k < self.attrs@.len() ==> (#[trigger] self.attrs@[k]).0@ != name@,
            },
    {
        let ghost av = attrs_view(self.attrs@);
        let ghost n = self.attrs@.len();
        let mut i: usize = 0;
        proof {
            assert(av.subrange(0, n as int) =~= av);
        }
        while i < self.attrs.len()
            invariant
                i <= self.attrs@.len(),
                n == self.attrs@.len(),
                av == attrs_view(self.attrs@),
                av == self@.attrs,
                forall|j: int| 0 <= j < i ==> (#[trigger] self.attrs@[j]).0@ != name@,
                attr_lookup(av, name@) == attr_lookup(av.subrange(i as int, n as int), name@),
            decreases self.attrs.len() - i,
        {
            let (k, v) = &self.attrs[i];
            proof {
                let sub = av.subrange(i as int, n as int);
                assert(sub[0] == av[i as int]);
                assert(av[i as int] == (k@, v@));
                assert(sub.subrange(1, sub.len() as int) =~= av.subrange(i + 1, n as int));
            }
            if str_eq(k.as_str(), name) {
                return Some(v.as_str());
            }
            i += 1;
        }
        None
    }

    /// The children that are elements, in document order.
    pub fn children_elements(&self) -> (r: Vec<&XmlElement>)
        ensures
            r@.len() == element_children(self.children@).len(),
            forall|k: int| 0 <= k < r@.len() ==> *r@[k] == #[trigger] element_children(self.children@)[k],
    {
        let mut out: Vec<&XmlElement> = Vec::new();
        let mut i: usize = 0;
        while i < self.children.len()
            invariant
                i <= self.children@.len(),
                out@.len() == element_children(self.children@.subrange(0, i as int)).len(),
                forall|k: int|
                    0 <= k < out@.len() ==> *out@[k] == #[trigger] element_children(
                        self.children@.subrange(0, i as int),
                    )[k],
            decreases self.children.len() - i,
        {
            proof {
                assert(self.children@.subrange(0, i + 1).subrange(0, i as int) =~= self.children@.subrange(0, i as int));
            }
            match &self.children[i] {
                XmlNode::Element(e) => {
                    out.push(e);
                },
                XmlNode::Text(_) => {},
            }
            i += 1;
        }
        proof {
            assert(self.children@.subrange(0, i as int) =~= self.children@);
        }
        out
    }
}

/// The views of the elements on the builder's stack.
pub open spec fn stack_view(s: Seq<XmlElement>) -> Seq<SpecElement> {
    s.map_values(|e: XmlElement| e@)
}

/// Adds `node` as the last child of the element on top of the stack.
fn push_child(stack: &mut Vec<XmlElement>, node: XmlNode)
    requires
        old(stack)@.len() > 0,
    ensures
        stack_view(final(stack)@) == add_child(stack_view(old(stack)@), node@),
{
    let mut parent = stack.pop().unwrap();
    let ghost old_children = parent.children@;
    parent.children.push(node);
    proof {
        lemma_nodes_view_push(old_children, node);
    }
    stack.push(parent);
    proof {
        assert(stack_view(stack@) =~= add_child(stack_view(old(stack)@), node@));
    }
}

/// Parses UTF-8 bytes into an element tree.
///
/// The tokens are assembled with a stack of open elements. Namespace
/// prefixes are removed from tag and attribute names, `xmlns` and `xmlns:*`
/// attributes are dropped, and text made of whitespace only is ignored, as is
/// text outside the root element. The document ends at the close tag of the
/// root element; a root element that is never closed is accepted.
pub fn parse_xml(data: &[u8]) -> (r: Result<XmlDocument, String>)
    ensures
        !valid_utf8(data@) ==> (r matches Err(m) && has_prefix(m@, "Invalid UTF-8: "@)),
        valid_utf8(data@) ==> match r {
            Ok(d) => spec_parse_xml(data@) == Ok::<SpecElement, Seq<char>>(d.root@),
            Err(m) => spec_parse_xml(data@) == Err::<SpecElement, Seq<char>>(m@),
        },
{
    let mut tokens = match tokenize(data) {
        Ok(t) => t,
        Err(m) => {
            return Err(m);
        },
    };
    if tokens.len() == 0 {
        return Err(String::from_str("Empty document"));
    }
    let ghost toks = tokens_view(tokens@);
    let ghost n = tokens@.len();
    let mut rev: Vec<XmlToken> = Vec::new();
    while tokens.len() > 0
        invariant
            tokens@.len() + rev@.len() == n,
            n == toks.len(),
            forall|k: int| 0 <= k < tokens@.len() ==> (#[trigger] tokens@[k])@ == toks[k],
            forall|k: int| 0 <= k < rev@.len() ==> (#[trigger] rev@[k])@ == toks[n - 1 - k],
        decreases tokens.len(),
    {
        let t = tokens.pop().unwrap();
        rev.push(t);
    }
    let mut stack: Vec<XmlElement> = Vec::new();
    proof {
        assert(stack_view(stack@) =~= Seq::<SpecElement>::empty());
    }
    while rev.len() > 0
        invariant
            rev@.len() <= n,
            n == toks.len(),
            valid_utf8(data@),
            spec_tokenize(data@) == Ok::<Seq<SpecToken>, Seq<char>>(toks),
            toks.len() > 0,
            forall|k: int| 0 <= k < rev@.len() ==> (#[trigger] rev@[k])@ == toks[n - 1 - k],
            spec_parse_xml(data@) == spec_build(toks, n - rev@.len(), stack_view(stack@)),
        decreases rev.len(),
    {
        let ghost i = n - rev@.len();
        let ghost sv = stack_view(stack@);
        let tok = rev.pop().unwrap();
        match tok {
            XmlToken::OpenTag { name, attrs } => {
                let e = XmlElement {
                    tag: strip_ns_prefix(name.as_str()),
                    attrs: normalize_attrs(attrs),
                    children: Vec::new(),
                };
                proof {
                    assert(nodes_view(e.children@) =~= Seq::<SpecNode>::empty());
                }
                stack.push(e);
                proof {
                    assert(stack_view(stack@) =~= sv.push(e@));
                }
            },
            XmlToken::CloseTag { name } => {
                let local = strip_ns_prefix(name.as_str());
                match stack.pop() {
                    None => {
                        return Err(concat3(
                            "Unexpected close tag '</",
                            local.as_str(),
                            ">' with empty stack",
                        ));
                    },
                    Some(elem) => {
                        proof {
                            assert(stack_view(stack@) =~= sv.subrange(0, sv.len() - 1));
                        }
                        if !str_eq(elem.tag.as_str(), local.as_str()) {
                            let mut m = concat3(
                                "Mismatched tags: expected '</",
                                elem.tag.as_str(),
                                ">', found '</",
                            );
                            m.append(local.as_str());
                            m.append(">'");
                            return Err(m);
                        }
                        if stack.len() == 0 {
                            return Ok(XmlDocument { root: elem });
                        }
                        push_child(&mut stack, XmlNode::Element(elem));
                    },
                }
            },
            XmlToken::SelfClosingTag { name, attrs } => {
                let e = XmlElement {
                    tag: strip_ns_prefix(name.as_str()),
                    attrs: normalize_attrs(attrs),
                    children: Vec::new(),
                };
                proof {
                    assert(nodes_view(e.children@) =~= Seq::<SpecNode>::empty());
                }
                if stack.len() == 0 {
                    return Ok(XmlDocument { root: e });
                }
                push_child(&mut stack, XmlNode::Element(e));
            },
            XmlToken::Text(text) => {
                if !blank(text.as_str()) && stack.len() > 0 {
                    push_child(&mut stack, XmlNode::Text(text));
                }
            },
        }
    }
    if stack.len() == 1 {
        let root = stack.pop().unwrap();
        return Ok(XmlDocument { root });
    }
    if stack.len() == 0 {
        return Err(String::from_str("No root element found"));
    }
    let mut unclosed: Vec<String> = Vec::new();
    let mut k: usize = 0;
    while k < stack.len()
        invariant
            k <= stack@.len(),
            unclosed@.len() == k,
            forall|j: int| 0 <= j < k ==> (#[trigger] unclosed@[j])@ == stack@[j].tag@,
        decreases stack.len() - k,
    {
        unclosed.push(stack[k].tag.clone());
        k += 1;
    }
    proof {
        assert(unclosed@.map_values(|s: String| s@) =~= stack_tags(stack_view(stack@)));
    }
    let listed = debug_strings(&unclosed);
    Err(concat_str("Unclosed elements: ", listed.as_str()))
}

/// `a`, then `b`, then `c`.
fn concat3(a: &str, b: &str, c: &str) -> (r: String)
    ensures
        r@ == a@ + b@ + c@,
{
    let mut s = concat_str(a, b);
    s.append(c);
    s
}


// ------------------------------------------------------------------
// What every parsed tree satisfies
// ------------------------------------------------------------------

/// A name in which no `:` occurs.
pub open spec fn no_colon(s: Seq<char>) -> bool {
    forall|k: int| 0 <= k < s.len() ==> s[k] != ':'
}

/// An element whose name and attribute names carry no namespace prefix and
/// whose text children are not blank, all the way down.
pub open spec fn tidy_elem(e: SpecElement) -> bool
    decreases e,
{
    &&& no_colon(e.tag)
    &&& forall|k: int| 0 <= k < e.attrs.len() ==> no_colon(#[trigger] e.attrs[k].0)
    &&& tidy_nodes(e.children)
}

/// Every node of the list is tidy (see [`tidy_elem`]).
pub open spec fn tidy_nodes(ns: Seq<SpecNode>) -> bool
    decreases ns,
{
    if ns.len() == 0 {
        true
    } else {
        tidy_nodes(ns.subrange(0, ns.len() - 1)) && tidy_node(ns[ns.len() - 1])
    }
}

/// A tidy element, or text that is not blank.
pub open spec fn tidy_node(n: SpecNode) -> bool
    decreases n,
{
    match n {
        SpecNode::Element(e) => tidy_elem(e),
        SpecNode::Text(t) => !is_blank(t),
    }
}

proof fn lemma_last_colon(s: Seq<char>, j: int)
    requires
        0 <= j <= s.len(),
    ensures
        match last_colon(s, j) {
            Some(k) => 0 <= k < j && s[k] == ':' && forall|i: int| k < i < j ==> s[i] != ':',
            None => forall|i: int| 0 <= i < j ==> s[i] != ':',
        },
    decreases j,
{
    if j > 0 && s[j - 1] != ':' {
        lemma_last_colon(s, j - 1);
    }
}

/// A name stripped of its prefix holds no `:`, and stripping it again
/// changes nothing.
pub proof fn strip_ns_leaves_no_colon(s: Seq<char>)
    ensures
        no_colon(strip_ns(s)),
        strip_ns(strip_ns(s)) == strip_ns(s),
{
    lemma_last_colon(s, s.len() as int);
    let t = strip_ns(s);
    match last_colon(s, s.len() as int) {
        Some(k) => {
            assert forall|i: int| 0 <= i < t.len() implies t[i] != ':' by {
                assert(t[i] == s[k + 1 + i]);
            }
        },
        None => {},
    }
    lemma_last_colon(t, t.len() as int);
    if let Some(k) = last_colon(t, t.len() as int) {
        assert(t[k] == ':');
    }
}

proof fn lemma_normalize_no_colon(a: Seq<(Seq<char>, Seq<char>)>)
    ensures
        forall|k: int| 0 <= k < normalize(a).len() ==> no_colon(#[trigger] normalize(a)[k].0),
    decreases a.len(),
{
    if a.len() > 0 {
        let rest = normalize(a.subrange(0, a.len() - 1));
        lemma_normalize_no_colon(a.subrange(0, a.len() - 1));
        strip_ns_leaves_no_colon(a[a.len() - 1].0);
        assert forall|k: int| 0 <= k < normalize(a).len() implies no_colon(
            #[trigger] normalize(a)[k].0,
        ) by {
            if k < rest.len() {
                assert(normalize(a)[k] == rest[k]);
                assert(no_colon(rest[k].0));
            }
        }
    }
}

proof fn lemma_tidy_push(ns: Seq<SpecNode>, n: SpecNode)
    ensures
        tidy_nodes(ns.push(n)) == (tidy_nodes(ns) && tidy_node(n)),
{
    assert(ns.push(n).subrange(0, ns.len() as int) =~= ns);
}

/// Every element of the stack is tidy.
pub open spec fn tidy_stack(stack: Seq<SpecElement>) -> bool {
    forall|k: int| 0 <= k < stack.len() ==> tidy_elem(#[trigger] stack[k])
}

proof fn lemma_new_elem_tidy(name: Seq<char>, attrs: Seq<(Seq<char>, Seq<char>)>)
    ensures
        tidy_elem(new_elem(name, attrs)),
{
    strip_ns_leaves_no_colon(name);
    lemma_normalize_no_colon(attrs);
    assert(tidy_nodes(Seq::<SpecNode>::empty()));
}

proof fn lemma_add_child_tidy(stack: Seq<SpecElement>, n: SpecNode)
    requires
        stack.len() > 0,
        tidy_stack(stack),
        tidy_node(n),
    ensures
        tidy_stack(add_child(stack, n)),
{
    let top = stack[stack.len() - 1];
    assert(tidy_elem(top));
    lemma_tidy_push(top.children, n);
    let nt = SpecElement { tag: top.tag, attrs: top.attrs, children: top.children.push(n) };
    assert(tidy_elem(nt));
}

proof fn lemma_build_tidy(toks: Seq<SpecToken>, i: int, stack: Seq<SpecElement>)
    requires
        tidy_stack(stack),
    ensures
        spec_build(toks, i, stack) matches Ok(e) ==> tidy_elem(e),
    decreases toks.len() - i,
{
    if 0 <= i < toks.len() {
        match toks[i] {
            SpecToken::OpenTag { name, attrs } => {
                lemma_new_elem_tidy(name, attrs);
                lemma_build_tidy(toks, i + 1, stack.push(new_elem(name, attrs)));
            },
            SpecToken::CloseTag { name } => {
                if stack.len() > 1 {
                    let top = stack[stack.len() - 1];
                    let below = stack.subrange(0, stack.len() - 1);
                    assert(tidy_elem(top));
                    lemma_add_child_tidy(below, SpecNode::Element(top));
                    lemma_build_tidy(toks, i + 1, add_child(below, SpecNode::Element(top)));
                } else if stack.len() == 1 {
                    assert(tidy_elem(stack[0]));
                }
            },
            SpecToken::SelfClosingTag { name, attrs } => {
                lemma_new_elem_tidy(name, attrs);
                if stack.len() > 0 {
                    lemma_add_child_tidy(stack, SpecNode::Element(new_elem(name, attrs)));
                    lemma_build_tidy(
                        toks,
                        i + 1,
                        add_child(stack, SpecNode::Element(new_elem(name, attrs))),
                    );
                }
            },
            SpecToken::Text(t) => {
                if is_blank(t) || stack.len() == 0 {
                    lemma_build_tidy(toks, i + 1, stack);
                } else {
                    lemma_add_child_tidy(stack, SpecNode::Text(t));
                    lemma_build_tidy(toks, i + 1, add_child(stack, SpecNode::Text(t)));
                }
            },
        }
    } else if stack.len() == 1 {
        assert(tidy_elem(stack[0]));
    }
}

/// The tree that parsing gives back carries no namespace prefixes: no `:`
/// occurs in an element's name or in an attribute's name; and no text child
/// is whitespace only.
pub proof fn parsed_tree_is_tidy(b: Seq<u8>)
    ensures
        spec_parse_xml(b) matches Ok(e) ==> tidy_elem(e),
{
    if let Ok(toks) = spec_tokenize(b) {
        lemma_build_tidy(toks, 0, Seq::empty());
    }
}


/// The attribute kept for `p`: its name without prefix, and its value.
pub open spec fn stripped(p: (Seq<char>, Seq<char>)) -> (Seq<char>, Seq<char>) {
    (strip_ns(p.0), p.1)
}

/// Normalising attributes drops every `xmlns` and `xmlns:*` declaration and
/// keeps each other attribute, in order, with its name stripped of its
/// prefix; so no attribute of a parsed element was written as a namespace
/// declaration.
pub proof fn normalize_drops_declarations(a: Seq<(Seq<char>, Seq<char>)>)
    ensures
        normalize(a) == a.filter(|p: (Seq<char>, Seq<char>)| !is_xmlns(p.0)).map_values(
            |p: (Seq<char>, Seq<char>)| stripped(p),
        ),
    decreases a.len(),
{
    let keep = |p: (Seq<char>, Seq<char>)| !is_xmlns(p.0);
    let f = |p: (Seq<char>, Seq<char>)| stripped(p);
    reveal(Seq::filter);
    if a.len() > 0 {
        let pre = a.subrange(0, a.len() - 1);
        normalize_drops_declarations(pre);
        assert(a.drop_last() =~= pre);
        let fp = pre.filter(keep);
        if keep(a.last()) {
            assert(a.filter(keep) == fp.push(a.last()));
            assert(fp.push(a.last()).map_values(f) =~= fp.map_values(f).push(f(a.last())));
        } else {
            assert(a.filter(keep) == fp);
        }
    } else {
        assert(a.filter(keep) =~= Seq::<(Seq<char>, Seq<char>)>::empty());
    }
}


// ------------------------------------------------------------------
// Copies
// ------------------------------------------------------------------

/// A copy of an element and everything under it.
fn copy_element(e: &XmlElement) -> (r: XmlElement)
    ensures
        r@ == e@,
    decreases crate::parse::elem_size(e@),
{
    let mut attrs: Vec<(String, String)> = Vec::new();
    let mut j: usize = 0;
    while j < e.attrs.len()
        invariant
            j <= e.attrs@.len(),
            attrs@.len() == j,
            forall|k: int| 0 <= k < j ==> (#[trigger] attrs@[k]).0@ == e.attrs@[k].0@ && attrs@[k].1@
                == e.attrs@[k].1@,
        decreases e.attrs.len() - j,
    {
        let (k, v) = &e.attrs[j];
        attrs.push((k.clone(), v.clone()));
        j += 1;
    }
    proof {
        assert(attrs_view(attrs@) =~= attrs_view(e.attrs@));
    }
    let ghost ns = nodes_view(e.children@);
    let n = e.children.len();
    proof {
        lemma_nodes_view(e.children@);
    }
    let mut children: Vec<XmlNode> = Vec::new();
    let mut i: usize = 0;
    proof {
        assert(e.children@.subrange(0, 0) =~= Seq::<XmlNode>::empty());
        assert(nodes_view(children@) =~= Seq::<SpecNode>::empty());
    }
    while i < n
        invariant
            n == e.children@.len(),
            i <= n,
            ns == nodes_view(e.children@),
            ns == e@.children,
            ns.len() == n,
            forall|k: int| 0 <= k < n ==> #[trigger] ns[k] == node_view(e.children@[k]),
            nodes_view(children@) == nodes_view(e.children@.subrange(0, i as int)),
        decreases n - i,
    {
        let ghost before = children@;
        let x = match &e.children[i] {
            XmlNode::Element(c) => {
                proof {
                    assert(ns[i as int] == SpecNode::Element(c@));
                    crate::parse::lemma_child_size(ns, i as int, c@);
                }
                XmlNode::Element(copy_element(c))
            },
            XmlNode::Text(t) => XmlNode::Text(t.clone()),
        };
        proof {
            assert(node_view(x) == node_view(e.children@[i as int]));
            lemma_nodes_view_push(before, x);
            lemma_nodes_view_push(e.children@.subrange(0, i as int), e.children@[i as int]);
            assert(e.children@.subrange(0, i as int).push(e.children@[i as int]) =~= e.children@.subrange(
                0,
                i + 1,
            ));
        }
        children.push(x);
        i += 1;
    }
    proof {
        assert(e.children@.subrange(0, n as int) =~= e.children@);
    }
    XmlElement { tag: e.tag.clone(), attrs, children }
}

impl Clone for XmlElement {
    fn clone(&self) -> (r: Self)
        ensures
            r@ == self@,
    {
        copy_element(self)
    }
}

impl Clone for XmlNode {
    fn clone(&self) -> (r: Self)
        ensures
            r@ == self@,
    {
        match self {
            XmlNode::Element(e) => XmlNode::Element(copy_element(e)),
            XmlNode::Text(t) => XmlNode::Text(t.clone()),
        }
    }
}

impl Clone for XmlDocument {
    fn clone(&self) -> (r: Self)
        ensures
            r.root@ == self.root@,
    {
        XmlDocument { root: copy_element(&self.root) }
    }
}

} // verus!
