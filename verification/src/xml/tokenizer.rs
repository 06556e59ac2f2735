//! The XML tokenizer: UTF-8 bytes to a flat list of tags and text.
//!
//! Comments, processing instructions and DOCTYPE declarations are skipped,
//! CDATA sections become text, and the five predefined entities as well as
//! numeric character references are resolved in text and attribute values.

use vstd::prelude::*;
use vstd::utf8::*;
use vstd::string::*;
use crate::text::{
    ascii_lower, ascii_ws, concat_str, decimal, decimal_string, eq_ignore_ascii_case, is_ascii_ws,
    lemma_boundary_after_ascii, lemma_boundary_at_ascii, lemma_scan_until, lemma_valid_between,
    lower_byte, lower_bytes, push_char, scan_until, skip_ascii_ws, skip_ws, str_from_utf8,
    utf8_error_text, char_from_u32, parse_u32_radix, spec_parse_u32,
};

verus! {

broadcast use vstd::seq::group_seq_axioms;

// ------------------------------------------------------------------
// Tokens
// ------------------------------------------------------------------

/// One XML token.
#[derive(Debug, Clone, PartialEq)]
pub enum XmlToken {
    /// `<name attr="value" ...>`
    OpenTag { name: String, attrs: Vec<(String, String)> },
    /// `</name>`
    CloseTag { name: String },
    /// `<name attr="value" ... />`
    SelfClosingTag { name: String, attrs: Vec<(String, String)> },
    /// Character data between tags.
    Text(String),
}

/// The characters of a name/value attribute list.
pub open spec fn attrs_view(a: Seq<(String, String)>) -> Seq<(Seq<char>, Seq<char>)> {
    a.map_values(|p: (String, String)| (p.0@, p.1@))
}

/// What a token holds, as character sequences.
pub enum SpecToken {
    OpenTag { name: Seq<char>, attrs: Seq<(Seq<char>, Seq<char>)> },
    CloseTag { name: Seq<char> },
    SelfClosingTag { name: Seq<char>, attrs: Seq<(Seq<char>, Seq<char>)> },
    Text(Seq<char>),
}

impl View for XmlToken {
    type V = SpecToken;

    open spec fn view(&self) -> SpecToken {
        match self {
            XmlToken::OpenTag { name, attrs } => SpecToken::OpenTag {
                name: name@,
                attrs: attrs_view(attrs@),
            },
            XmlToken::CloseTag { name } => SpecToken::CloseTag { name: name@ },
            XmlToken::SelfClosingTag { name, attrs } => SpecToken::SelfClosingTag {
                name: name@,
                attrs: attrs_view(attrs@),
            },
            XmlToken::Text(t) => SpecToken::Text(t@),
        }
    }
}

/// The views of a list of tokens.
pub open spec fn tokens_view(t: Seq<XmlToken>) -> Seq<SpecToken> {
    t.map_values(|x: XmlToken| x@)
}

// ------------------------------------------------------------------
// The grammar, as spec functions over the input bytes
// ------------------------------------------------------------------

/// `b[pos..]` begins with `pat`.
pub open spec fn spec_starts_with_at(b: Seq<u8>, pos: int, pat: Seq<u8>) -> bool {
    0 <= pos && pos + pat.len() <= b.len() && b.subrange(pos, pos + pat.len()) == pat
}

/// `b[pos..]` begins with `pat`, ignoring ASCII case.
pub open spec fn spec_starts_with_at_ci(b: Seq<u8>, pos: int, pat: Seq<u8>) -> bool {
    0 <= pos && pos + pat.len() <= b.len() && eq_ignore_ascii_case(
        b.subrange(pos, pos + pat.len()),
        pat,
    )
}

pub open spec fn comment_open() -> Seq<u8> {
    seq![0x3Cu8, 0x21u8, 0x2Du8, 0x2Du8]
}

pub open spec fn cdata_open() -> Seq<u8> {
    seq![0x3Cu8, 0x21u8, 0x5Bu8, 0x43u8, 0x44u8, 0x41u8, 0x54u8, 0x41u8, 0x5Bu8]
}

pub open spec fn doctype_open() -> Seq<u8> {
    seq![0x3Cu8, 0x21u8, 0x44u8, 0x4Fu8, 0x43u8, 0x54u8, 0x59u8, 0x50u8, 0x45u8]
}

pub open spec fn pi_open() -> Seq<u8> {
    seq![0x3Cu8, 0x3Fu8]
}

/// First `k >= i` with `b[k..k+3] == [x, y, z]`.
pub open spec fn find3(b: Seq<u8>, i: int, x: u8, y: u8, z: u8) -> Option<int>
    decreases b.len() - i,
{
    if i < 0 || i + 2 >= b.len() {
        None
    } else if b[i] == x && b[i + 1] == y && b[i + 2] == z {
        Some(i)
    } else {
        find3(b, i + 1, x, y, z)
    }
}

/// First `k >= i` with `b[k..k+2] == [x, y]`.
pub open spec fn find2(b: Seq<u8>, i: int, x: u8, y: u8) -> Option<int>
    decreases b.len() - i,
{
    if i < 0 || i + 1 >= b.len() {
        None
    } else if b[i] == x && b[i + 1] == y {
        Some(i)
    } else {
        find2(b, i + 1, x, y)
    }
}

/// The position just after the `>` that closes a DOCTYPE, counting `[` and `]`
/// so that a `>` inside an internal subset does not end it.
pub open spec fn doctype_end(b: Seq<u8>, i: int, depth: int) -> Option<int>
    decreases b.len() - i,
{
    if i < 0 || i >= b.len() {
        None
    } else if b[i] == 0x5Bu8 {
        doctype_end(b, i + 1, depth + 1)
    } else if b[i] == 0x5Du8 {
        doctype_end(b, i + 1, depth - 1)
    } else if b[i] == 0x3Eu8 && depth == 0 {
        Some(i + 1)
    } else {
        doctype_end(b, i + 1, depth)
    }
}

/// A message followed by a position in decimal.
pub open spec fn msg_at(prefix: Seq<char>, pos: int) -> Seq<char> {
    prefix + decimal(pos as nat)
}

pub open spec fn spec_skip_comment(b: Seq<u8>, pos: int) -> Result<int, Seq<char>> {
    match find3(b, pos + 4, 0x2Du8, 0x2Du8, 0x3Eu8) {
        Some(k) => Ok(k + 3),
        None => Err(msg_at("Unterminated comment starting at position "@, pos)),
    }
}

pub open spec fn spec_parse_cdata(b: Seq<u8>, pos: int) -> Result<(Seq<char>, int), Seq<char>> {
    match find3(b, pos + 9, 0x5Du8, 0x5Du8, 0x3Eu8) {
        Some(k) => Ok((decode_utf8(b.subrange(pos + 9, k)), k + 3)),
        None => Err(msg_at("Unterminated CDATA section starting at position "@, pos)),
    }
}

pub open spec fn spec_skip_doctype(b: Seq<u8>, pos: int) -> Result<int, Seq<char>> {
    match doctype_end(b, pos + 9, 0) {
        Some(k) => Ok(k),
        None => Err(msg_at("Unterminated DOCTYPE starting at position "@, pos)),
    }
}

pub open spec fn spec_skip_pi(b: Seq<u8>, pos: int) -> Result<int, Seq<char>> {
    match find2(b, pos + 2, 0x3Fu8, 0x3Eu8) {
        Some(k) => Ok(k + 2),
        None => Err(msg_at("Unterminated PI starting at position "@, pos)),
    }
}

/// End of a close-tag name: `>`, ASCII whitespace or the end of input.
pub open spec fn close_name_end(b: Seq<u8>, i: int) -> int {
    scan_until(b, i, |c: u8| c == 0x3Eu8 || is_ascii_ws(c))
}

/// The next `>` (or the end of input).
pub open spec fn next_gt(b: Seq<u8>, i: int) -> int {
    scan_until(b, i, |c: u8| c == 0x3Eu8)
}

pub open spec fn spec_parse_close_tag(b: Seq<u8>, pos: int) -> Result<(Seq<char>, int), Seq<char>> {
    let ne = close_name_end(b, pos + 2);
    let name = decode_utf8(b.subrange(pos + 2, ne));
    let gt = next_gt(b, ne);
    if gt >= b.len() {
        Err("Unterminated close tag '</"@ + name + "'"@)
    } else {
        Ok((name, gt + 1))
    }
}

/// End of a tag name: ASCII whitespace, `>`, `/` or the end of input.
pub open spec fn open_name_end(b: Seq<u8>, i: int) -> int {
    scan_until(b, i, |c: u8| is_ascii_ws(c) || c == 0x3Eu8 || c == 0x2Fu8)
}

/// End of an attribute name: `=`, ASCII whitespace or the end of input.
pub open spec fn attr_name_end(b: Seq<u8>, i: int) -> int {
    scan_until(b, i, |c: u8| c == 0x3Du8 || is_ascii_ws(c))
}

/// The next occurrence of the quote byte `q` (or the end of input).
pub open spec fn next_quote(b: Seq<u8>, i: int, q: u8) -> int {
    scan_until(b, i, |c: u8| c == q)
}

/// One `name="value"` pair starting at `i`: the name, the resolved value and
/// the position after the closing quote.
pub open spec fn spec_parse_attribute(b: Seq<u8>, i: int) -> Result<
    (Seq<char>, Seq<char>, int),
    Seq<char>,
> {
    let ne = attr_name_end(b, i);
    let name = decode_utf8(b.subrange(i, ne));
    let j = skip_ws(b, ne);
    if j >= b.len() || b[j] != 0x3Du8 {
        Err("Expected '=' after attribute name '"@ + name + "'"@)
    } else {
        let k = skip_ws(b, j + 1);
        if k >= b.len() {
            Err("Expected attribute value after '"@ + name + "='"@)
        } else {
            let q = b[k];
            if q != 0x22u8 && q != 0x27u8 {
                Err("Expected quote after '"@ + name + "=', found '"@ + seq![q as char] + "'"@)
            } else {
                let ve = next_quote(b, k + 1, q);
                if ve >= b.len() {
                    Err("Unterminated attribute value for '"@ + name + "'"@)
                } else {
                    Ok((name, resolve_text(b.subrange(k + 1, ve)), ve + 1))
                }
            }
        }
    }
}

/// The attribute list of a start tag from `i` on, ending in `>` or `/>`.
pub open spec fn spec_tag_rest(
    b: Seq<u8>,
    i: int,
    name: Seq<char>,
    attrs: Seq<(Seq<char>, Seq<char>)>,
) -> Result<(SpecToken, int), Seq<char>>
    decreases b.len() - i,
{
    let j = skip_ws(b, i);
    if i < 0 || j >= b.len() {
        Err("Unterminated tag '<"@ + name + "'"@)
    } else if b[j] == 0x2Fu8 {
        if j + 1 < b.len() && b[j + 1] == 0x3Eu8 {
            Ok((SpecToken::SelfClosingTag { name, attrs }, j + 2))
        } else {
            Err("Expected '>' after '/' in tag '<"@ + name + "'"@)
        }
    } else if b[j] == 0x3Eu8 {
        Ok((SpecToken::OpenTag { name, attrs }, j + 1))
    } else {
        match spec_parse_attribute(b, j) {
            Err(m) => Err(m),
            Ok((k, v, nj)) => if i < nj <= b.len() {
                spec_tag_rest(b, nj, name, attrs.push((k, v)))
            } else {
                Err(seq![])
            },
        }
    }
}

pub open spec fn spec_parse_open_tag(b: Seq<u8>, pos: int) -> Result<(SpecToken, int), Seq<char>> {
    let ne = open_name_end(b, pos + 1);
    if ne == pos + 1 {
        Err(msg_at("Empty tag name at position "@, pos))
    } else {
        spec_tag_rest(b, ne, decode_utf8(b.subrange(pos + 1, ne)), seq![])
    }
}

/// The end of a run of character data: the next `<` or the end of input.
pub open spec fn text_end(b: Seq<u8>, i: int) -> int {
    scan_until(b, i, |c: u8| c == 0x3Cu8)
}

/// One step of the tokenizer at `pos < b.len()`: the token produced there, if
/// any, and where the next step starts.
pub open spec fn spec_step(b: Seq<u8>, pos: int) -> Result<(Option<SpecToken>, int), Seq<char>> {
    if b[pos] == 0x3Cu8 {
        if pos + 1 >= b.len() {
            Err("Unexpected end of input after '<'"@)
        } else if spec_starts_with_at(b, pos, comment_open()) {
            match spec_skip_comment(b, pos) {
                Ok(np) => Ok((None, np)),
                Err(m) => Err(m),
            }
        } else if spec_starts_with_at(b, pos, cdata_open()) {
            match spec_parse_cdata(b, pos) {
                Ok((t, np)) => Ok((if t.len() == 0 { None } else { Some(SpecToken::Text(t)) }, np)),
                Err(m) => Err(m),
            }
        } else if spec_starts_with_at_ci(b, pos, doctype_open()) {
            match spec_skip_doctype(b, pos) {
                Ok(np) => Ok((None, np)),
                Err(m) => Err(m),
            }
        } else if spec_starts_with_at(b, pos, pi_open()) {
            match spec_skip_pi(b, pos) {
                Ok(np) => Ok((None, np)),
                Err(m) => Err(m),
            }
        } else if b[pos + 1] == 0x2Fu8 {
            match spec_parse_close_tag(b, pos) {
                Ok((name, np)) => Ok((Some(SpecToken::CloseTag { name }), np)),
                Err(m) => Err(m),
            }
        } else {
            match spec_parse_open_tag(b, pos) {
                Ok((t, np)) => Ok((Some(t), np)),
                Err(m) => Err(m),
            }
        }
    } else {
        let e = text_end(b, pos);
        let t = resolve_text(b.subrange(pos, e));
        Ok((if t.len() == 0 { None } else { Some(SpecToken::Text(t)) }, e))
    }
}

/// The tokens of `b[pos..]`, or the first error met.
pub open spec fn spec_tokens_from(b: Seq<u8>, pos: int) -> Result<Seq<SpecToken>, Seq<char>>
    decreases b.len() - pos,
{
    if pos < 0 || pos >= b.len() {
        Ok(seq![])
    } else {
        match spec_step(b, pos) {
            Err(m) => Err(m),
            Ok((t, np)) => if pos < np <= b.len() {
                match spec_tokens_from(b, np) {
                    Err(m) => Err(m),
                    Ok(rest) => Ok(
                        match t {
                            Some(tok) => seq![tok] + rest,
                            None => rest,
                        },
                    ),
                }
            } else {
                Err(seq![])
            },
        }
    }
}

/// The outcome of tokenizing a whole input that is well-formed UTF-8.
pub open spec fn spec_tokenize(b: Seq<u8>) -> Result<Seq<SpecToken>, Seq<char>> {
    spec_tokens_from(b, 0)
}

// ------------------------------------------------------------------
// Entity references
// ------------------------------------------------------------------

/// First `k` in `[i, end)` with `b[k] == t`.
pub open spec fn find_in(b: Seq<u8>, i: int, end: int, t: u8) -> Option<int>
    decreases end - i,
{
    if i < 0 || i >= end || i >= b.len() {
        None
    } else if b[i] == t {
        Some(i)
    } else {
        find_in(b, i + 1, end, t)
    }
}

/// The `;` that ends an entity reference: searched for in the ten bytes from
/// `start` on.
pub open spec fn spec_find_byte(b: Seq<u8>, start: int, t: u8) -> Option<int> {
    let end = if start + 10 <= b.len() { start + 10 } else { b.len() as int };
    find_in(b, start, end, t)
}

/// The scalar value `cp` as a character, when it is one.
pub open spec fn spec_char_from_u32(cp: u32) -> Option<char> {
    if cp <= 0x10FFFFu32 && !(0xD800u32 <= cp && cp <= 0xDFFFu32) {
        Some(cp as char)
    } else {
        None
    }
}

/// A numeric character reference `#123` or `#x1F` (the bytes between `&`
/// and `;`).
pub open spec fn spec_numeric_entity(e: Seq<u8>) -> Option<char> {
    let body = e.subrange(1, e.len() as int);
    let n = if body.len() > 0 && (body[0] == 0x78u8 || body[0] == 0x58u8) {
        spec_parse_u32(body.subrange(1, body.len() as int), 16)
    } else {
        spec_parse_u32(body, 10)
    };
    match n {
        Some(cp) => spec_char_from_u32(cp),
        None => None,
    }
}

/// What replaces the reference `b[i..=k]` (from `&` to `;`).
pub open spec fn entity_piece(b: Seq<u8>, i: int, k: int) -> Seq<char> {
    let e = b.subrange(i + 1, k);
    if e == seq![0x61u8, 0x6Du8, 0x70u8] {
        seq!['&']
    } else if e == seq![0x6Cu8, 0x74u8] {
        seq!['<']
    } else if e == seq![0x67u8, 0x74u8] {
        seq!['>']
    } else if e == seq![0x71u8, 0x75u8, 0x6Fu8, 0x74u8] {
        seq!['"']
    } else if e == seq![0x61u8, 0x70u8, 0x6Fu8, 0x73u8] {
        seq!['\'']
    } else if e.len() > 0 && e[0] == 0x23u8 {
        match spec_numeric_entity(e) {
            Some(c) => seq![c],
            None => decode_utf8(b.subrange(i, k + 1)),
        }
    } else {
        decode_utf8(b.subrange(i, k + 1))
    }
}

/// Entity resolution of `b[i..]`: a reference (from `&` to a `;` within
/// reach) becomes its replacement, an `&` without one stays an `&`, and each
/// run of text up to the next `&` is kept as the characters it encodes.
pub open spec fn resolve_from(b: Seq<u8>, i: int) -> Seq<char>
    decreases b.len() - i,
{
    if i < 0 || i >= b.len() {
        seq![]
    } else if b[i] == 0x26u8 {
        match spec_find_byte(b, i + 1, 0x3Bu8) {
            Some(k) => if i < k < b.len() {
                entity_piece(b, i, k) + resolve_from(b, k + 1)
            } else {
                seq![]
            },
            None => seq!['&'] + resolve_from(b, i + 1),
        }
    } else {
        let j = scan_until(b, i, |x: u8| x == 0x26u8);
        if i < j <= b.len() {
            decode_utf8(b.subrange(i, j)) + resolve_from(b, j)
        } else {
            seq![]
        }
    }
}

/// Entity resolution of the UTF-8 text `b`: text without `&` is returned as
/// it is; otherwise it is rewritten by [`resolve_from`].
pub open spec fn resolve_text(b: Seq<u8>) -> Seq<char> {
    if !b.contains(0x26u8) {
        decode_utf8(b)
    } else {
        resolve_from(b, 0)
    }
}

// ------------------------------------------------------------------
// Executable tokenizer
// ------------------------------------------------------------------

/// Facts about [`find3`]: where a match lies and what it holds.
proof fn lemma_find3(b: Seq<u8>, i: int, x: u8, y: u8, z: u8)
    requires
        0 <= i,
    ensures
        find3(b, i, x, y, z) matches Some(k) ==> i <= k && k + 2 < b.len() && b[k] == x && b[k
            + 1] == y && b[k + 2] == z,
    decreases b.len() - i,
{
    if i + 2 < b.len() && !(b[i] == x && b[i + 1] == y && b[i + 2] == z) {
        lemma_find3(b, i + 1, x, y, z);
    }
}

/// Facts about [`find2`].
proof fn lemma_find2(b: Seq<u8>, i: int, x: u8, y: u8)
    requires
        0 <= i,
    ensures
        find2(b, i, x, y) matches Some(k) ==> i <= k && k + 1 < b.len() && b[k] == x && b[k + 1]
            == y,
    decreases b.len() - i,
{
    if i + 1 < b.len() && !(b[i] == x && b[i + 1] == y) {
        lemma_find2(b, i + 1, x, y);
    }
}

/// Facts about [`doctype_end`].
proof fn lemma_doctype_end(b: Seq<u8>, i: int, depth: int)
    requires
        0 <= i,
    ensures
        doctype_end(b, i, depth) matches Some(k) ==> i < k <= b.len() && b[k - 1] == 0x3Eu8,
    decreases b.len() - i,
{
    if i < b.len() {
        if b[i] == 0x5Bu8 {
            lemma_doctype_end(b, i + 1, depth + 1);
        } else if b[i] == 0x5Du8 {
            lemma_doctype_end(b, i + 1, depth - 1);
        } else if b[i] == 0x3Eu8 && depth == 0 {
        } else {
            lemma_doctype_end(b, i + 1, depth);
        }
    }
}

/// Facts about [`find_in`].
proof fn lemma_find_in(b: Seq<u8>, i: int, end: int, t: u8)
    requires
        0 <= i,
    ensures
        find_in(b, i, end, t) matches Some(k) ==> i <= k < end && k < b.len() && b[k] == t,
    decreases end - i,
{
    if i < end && i < b.len() && b[i] != t {
        lemma_find_in(b, i + 1, end, t);
    }
}

/// Skipping ASCII whitespace from a character boundary ends on a boundary.
proof fn lemma_skip_ws_boundary(b: Seq<u8>, i: int)
    requires
        valid_utf8(b),
        0 <= i <= b.len(),
        is_char_boundary(b, i),
    ensures
        is_char_boundary(b, skip_ws(b, i)),
    decreases b.len() - i,
{
    if i < b.len() && is_ascii_ws(b[i]) {
        lemma_boundary_after_ascii(b, i);
        lemma_skip_ws_boundary(b, i + 1);
    }
}

/// `prefix` followed by `pos` in decimal.
fn msg_at_pos(prefix: &str, pos: usize) -> (r: String)
    ensures
        r@ == msg_at(prefix@, pos as int),
{
    let d = decimal_string(pos as u64);
    concat_str(prefix, d.as_str())
}

/// `a`, then `b`, then `c`.
fn concat3(a: &str, b: &str, c: &str) -> (r: String)
    ensures
        r@ == a@ + b@ + c@,
{
    let mut s = concat_str(a, b);
    s.append(c);
    s
}

/// The characters encoded by `b[i..j]`, whose ends are character boundaries.
fn decode_range(b: &[u8], i: usize, j: usize) -> (r: String)
    requires
        valid_utf8(b@),
        i <= j <= b@.len(),
        is_char_boundary(b@, i as int),
        is_char_boundary(b@, j as int),
    ensures
        r@ == decode_utf8(b@.subrange(i as int, j as int)),
{
    let slice = &b[i..j];
    proof {
        lemma_valid_between(b@, i as int, j as int);
    }
    match str_from_utf8(slice) {
        Ok(s) => {
            proof {
                encode_utf8_decode_utf8(s@);
            }
            s.to_owned()
        },
        Err(_) => String::new(),
    }
}

/// Entity resolution of `b[i..j]`, whose ends are character boundaries.
fn resolve_range(b: &[u8], i: usize, j: usize) -> (r: String)
    requires
        valid_utf8(b@),
        i <= j <= b@.len(),
        is_char_boundary(b@, i as int),
        is_char_boundary(b@, j as int),
    ensures
        r@ == resolve_text(b@.subrange(i as int, j as int)),
{
    let slice = &b[i..j];
    proof {
        lemma_valid_between(b@, i as int, j as int);
    }
    match str_from_utf8(slice) {
        Ok(s) => resolve_entities(s),
        Err(_) => String::new(),
    }
}

/// Whether `bytes[pos..]` begins with `pattern`.
pub fn starts_with_at(bytes: &[u8], pos: usize, pattern: &[u8]) -> (r: bool)
    ensures
        r == spec_starts_with_at(bytes@, pos as int, pattern@),
{
    if pos > bytes.len() || pattern.len() > bytes.len() - pos {
        return false;
    }
    let blen = bytes.len();
    let mut k: usize = 0;
    while k < pattern.len()
        invariant
            blen == bytes@.len(),
            pos + pattern@.len() <= bytes@.len(),
            k <= pattern@.len(),
            forall|j: int| 0 <= j < k ==> bytes@[pos + j] == pattern@[j],
        decreases pattern.len() - k,
    {
        if bytes[pos + k] != pattern[k] {
            proof {
                assert(bytes@.subrange(pos as int, pos + pattern@.len())[k as int]
                    != pattern@[k as int]);
            }
            return false;
        }
        k += 1;
    }
    proof {
        assert(bytes@.subrange(pos as int, pos + pattern@.len()) =~= pattern@);
    }
    true
}

/// Whether `bytes[pos..]` begins with `pattern`, ignoring ASCII case.
pub fn starts_with_at_ci(bytes: &[u8], pos: usize, pattern: &[u8]) -> (r: bool)
    ensures
        r == spec_starts_with_at_ci(bytes@, pos as int, pattern@),
{
    if pos > bytes.len() || pattern.len() > bytes.len() - pos {
        return false;
    }
    let ghost sub = bytes@.subrange(pos as int, pos + pattern@.len());
    let blen = bytes.len();
    let mut k: usize = 0;
    while k < pattern.len()
        invariant
            blen == bytes@.len(),
            pos + pattern@.len() <= bytes@.len(),
            sub == bytes@.subrange(pos as int, pos + pattern@.len()),
            k <= pattern@.len(),
            forall|j: int| 0 <= j < k ==> lower_byte(bytes@[pos + j]) == lower_byte(pattern@[j]),
        decreases pattern.len() - k,
    {
        if ascii_lower(bytes[pos + k]) != ascii_lower(pattern[k]) {
            proof {
                assert(lower_bytes(sub)[k as int] != lower_bytes(pattern@)[k as int]);
            }
            return false;
        }
        k += 1;
    }
    proof {
        assert(lower_bytes(sub) =~= lower_bytes(pattern@));
    }
    true
}

/// Skips a comment that starts at `pos`; returns the position after `-->`.
fn skip_comment(bytes: &[u8], pos: usize) -> (r: Result<usize, String>)
    requires
        pos + 4 <= bytes@.len(),
    ensures
        match r {
            Ok(np) => spec_skip_comment(bytes@, pos as int) == Ok::<int, Seq<char>>(np as int)
                && pos < np <= bytes@.len() && bytes@[np - 1] == 0x3Eu8,
            Err(m) => spec_skip_comment(bytes@, pos as int) == Err::<int, Seq<char>>(m@),
        },
{
    let len = bytes.len();
    let search_start = pos + 4;
    let mut i = search_start;
    while i < len && len - i > 2
        invariant
            search_start <= i <= len,
            search_start == pos + 4,
            len == bytes@.len(),
            find3(bytes@, search_start as int, 0x2Du8, 0x2Du8, 0x3Eu8) == find3(
                bytes@,
                i as int,
                0x2Du8,
                0x2Du8,
                0x3Eu8,
            ),
        decreases len - i,
    {
        if bytes[i] == 0x2Du8 && bytes[i + 1] == 0x2Du8 && bytes[i + 2] == 0x3Eu8 {
            assert(find3(bytes@, i as int, 0x2Du8, 0x2Du8, 0x3Eu8) == Some(i as int));
            assert(find3(bytes@, pos + 4, 0x2Du8, 0x2Du8, 0x3Eu8) == Some(i as int));
            return Ok(i + 3);
        }
        i += 1;
    }
    Err(msg_at_pos("Unterminated comment starting at position ", pos))
}

/// Reads a CDATA section that starts at `pos`: its content and the position
/// after `]]>`.
fn parse_cdata(bytes: &[u8], pos: usize) -> (r: Result<(String, usize), String>)
    requires
        valid_utf8(bytes@),
        is_char_boundary(bytes@, pos as int),
        spec_starts_with_at(bytes@, pos as int, cdata_open()),
    ensures
        match r {
            Ok((t, np)) => spec_parse_cdata(bytes@, pos as int) == Ok::<
                (Seq<char>, int),
                Seq<char>,
            >((t@, np as int)) && pos < np <= bytes@.len() && bytes@[np - 1] == 0x3Eu8,
            Err(m) => spec_parse_cdata(bytes@, pos as int) == Err::<(Seq<char>, int), Seq<char>>(
                m@,
            ),
        },
{
    let len = bytes.len();
    let content_start = pos + 9;
    let mut i = content_start;
    proof {
        assert(bytes@[pos + 8] == cdata_open()[8]);
        lemma_boundary_at_ascii(bytes@, pos + 8);
        lemma_boundary_after_ascii(bytes@, pos + 8);
    }
    while i < len && len - i > 2
        invariant
            content_start <= i <= len,
            content_start == pos + 9,
            len == bytes@.len(),
            valid_utf8(bytes@),
            is_char_boundary(bytes@, content_start as int),
            find3(bytes@, content_start as int, 0x5Du8, 0x5Du8, 0x3Eu8) == find3(
                bytes@,
                i as int,
                0x5Du8,
                0x5Du8,
                0x3Eu8,
            ),
        decreases len - i,
    {
        if bytes[i] == 0x5Du8 && bytes[i + 1] == 0x5Du8 && bytes[i + 2] == 0x3Eu8 {
            assert(find3(bytes@, i as int, 0x5Du8, 0x5Du8, 0x3Eu8) == Some(i as int));
            proof {
                lemma_boundary_at_ascii(bytes@, i as int);
            }
            let text = decode_range(bytes, content_start, i);
            return Ok((text, i + 3));
        }
        i += 1;
    }
    Err(msg_at_pos("Unterminated CDATA section starting at position ", pos))
}

/// Skips a DOCTYPE declaration that starts at `pos`, internal subset
/// included; returns the position after its `>`.
fn skip_doctype(bytes: &[u8], pos: usize) -> (r: Result<usize, String>)
    requires
        pos + 9 <= bytes@.len(),
    ensures
        match r {
            Ok(np) => spec_skip_doctype(bytes@, pos as int) == Ok::<int, Seq<char>>(np as int)
                && pos < np <= bytes@.len() && bytes@[np - 1] == 0x3Eu8,
            Err(m) => spec_skip_doctype(bytes@, pos as int) == Err::<int, Seq<char>>(m@),
        },
{
    let len = bytes.len();
    let mut i = pos + 9;
    // The bracket depth is `opened - closed`; both counts stay below `i`.
    let mut opened: usize = 0;
    let mut closed: usize = 0;
    while i < len
        invariant
            pos + 9 <= i <= len,
            len == bytes@.len(),
            opened + closed <= i,
            doctype_end(bytes@, pos + 9, 0) == doctype_end(
                bytes@,
                i as int,
                opened as int - closed as int,
            ),
        decreases len - i,
    {
        let c = bytes[i];
        if c == 0x5Bu8 {
            opened += 1;
        } else if c == 0x5Du8 {
            closed += 1;
        } else if c == 0x3Eu8 && opened == closed {
            return Ok(i + 1);
        }
        i += 1;
    }
    Err(msg_at_pos("Unterminated DOCTYPE starting at position ", pos))
}

/// Skips a processing instruction that starts at `pos`; returns the position
/// after `?>`.
fn skip_pi(bytes: &[u8], pos: usize) -> (r: Result<usize, String>)
    requires
        pos + 2 <= bytes@.len(),
    ensures
        match r {
            Ok(np) => spec_skip_pi(bytes@, pos as int) == Ok::<int, Seq<char>>(np as int) && pos
                < np <= bytes@.len() && bytes@[np - 1] == 0x3Eu8,
            Err(m) => spec_skip_pi(bytes@, pos as int) == Err::<int, Seq<char>>(m@),
        },
{
    let len = bytes.len();
    let mut i = pos + 2;
    while i < len && len - i > 1
        invariant
            pos + 2 <= i <= len,
            len == bytes@.len(),
            find2(bytes@, pos + 2, 0x3Fu8, 0x3Eu8) == find2(bytes@, i as int, 0x3Fu8, 0x3Eu8),
        decreases len - i,
    {
        if bytes[i] == 0x3Fu8 && bytes[i + 1] == 0x3Eu8 {
            return Ok(i + 2);
        }
        i += 1;
    }
    Err(msg_at_pos("Unterminated PI starting at position ", pos))
}

/// Reads a close tag `</name>` that starts at `pos`.
fn parse_close_tag(bytes: &[u8], pos: usize) -> (r: Result<(String, usize), String>)
    requires
        valid_utf8(bytes@),
        pos + 2 <= bytes@.len(),
        bytes@[pos + 1] == 0x2Fu8,
    ensures
        match r {
            Ok((name, np)) => spec_parse_close_tag(bytes@, pos as int) == Ok::<
                (Seq<char>, int),
                Seq<char>,
            >((name@, np as int)) && pos < np <= bytes@.len() && bytes@[np - 1] == 0x3Eu8,
            Err(m) => spec_parse_close_tag(bytes@, pos as int) == Err::<
                (Seq<char>, int),
                Seq<char>,
            >(m@),
        },
{
    let len = bytes.len();
    let name_start = pos + 2;
    let mut i = name_start;
    while i < len && bytes[i] != 0x3Eu8 && !ascii_ws(bytes[i])
        invariant
            name_start <= i <= len,
            len == bytes@.len(),
            close_name_end(bytes@, name_start as int) == close_name_end(bytes@, i as int),
        decreases len - i,
    {
        i += 1;
    }
    proof {
        lemma_boundary_at_ascii(bytes@, pos + 1);
        lemma_boundary_after_ascii(bytes@, pos + 1);
        lemma_boundary_at_ascii(bytes@, i as int);
    }
    let name = decode_range(bytes, name_start, i);
    let ghost ne = i as int;
    while i < len && bytes[i] != 0x3Eu8
        invariant
            ne <= i <= len,
            len == bytes@.len(),
            next_gt(bytes@, ne) == next_gt(bytes@, i as int),
        decreases len - i,
    {
        i += 1;
    }
    if i >= len {
        return Err(concat3("Unterminated close tag '</", name.as_str(), "'"));
    }
    Ok((name, i + 1))
}

/// Reads one `name="value"` attribute that starts at `pos`.
fn parse_attribute(bytes: &[u8], pos: usize) -> (r: Result<(String, String, usize), String>)
    requires
        valid_utf8(bytes@),
        pos <= bytes@.len(),
        is_char_boundary(bytes@, pos as int),
    ensures
        match r {
            Ok((k, v, np)) => spec_parse_attribute(bytes@, pos as int) == Ok::<
                (Seq<char>, Seq<char>, int),
                Seq<char>,
            >((k@, v@, np as int)) && pos < np <= bytes@.len() && bytes@[np - 1] < 0x80u8,
            Err(m) => spec_parse_attribute(bytes@, pos as int) == Err::<
                (Seq<char>, Seq<char>, int),
                Seq<char>,
            >(m@),
        },
{
    let len = bytes.len();
    let mut i = pos;
    while i < len && bytes[i] != 0x3Du8 && !ascii_ws(bytes[i])
        invariant
            pos <= i <= len,
            len == bytes@.len(),
            attr_name_end(bytes@, pos as int) == attr_name_end(bytes@, i as int),
        decreases len - i,
    {
        i += 1;
    }
    proof {
        lemma_boundary_at_ascii(bytes@, i as int);
    }
    let attr_name = decode_range(bytes, pos, i);
    i = skip_ascii_ws(bytes, i);
    if i >= len || bytes[i] != 0x3Du8 {
        return Err(concat3("Expected '=' after attribute name '", attr_name.as_str(), "'"));
    }
    let ghost eq_pos = i as int;
    i += 1;
    i = skip_ascii_ws(bytes, i);
    if i >= len {
        return Err(concat3("Expected attribute value after '", attr_name.as_str(), "='"));
    }
    let quote = bytes[i];
    if quote != 0x22u8 && quote != 0x27u8 {
        let mut m = concat3("Expected quote after '", attr_name.as_str(), "=', found '");
        let ghost m0 = m@;
        push_char(&mut m, quote as char);
        m.append("'");
        proof {
            assert(m0.push(quote as char) =~= m0 + seq![quote as char]);
        }
        return Err(m);
    }
    let ghost q_pos = i as int;
    i += 1;
    let value_start = i;
    while i < len && bytes[i] != quote
        invariant
            value_start <= i <= len,
            len == bytes@.len(),
            next_quote(bytes@, value_start as int, quote) == next_quote(bytes@, i as int, quote),
        decreases len - i,
    {
        i += 1;
    }
    if i >= len {
        return Err(concat3("Unterminated attribute value for '", attr_name.as_str(), "'"));
    }
    proof {
        lemma_boundary_at_ascii(bytes@, q_pos);
        lemma_boundary_after_ascii(bytes@, q_pos);
        lemma_boundary_at_ascii(bytes@, i as int);
    }
    let value = resolve_range(bytes, value_start, i);
    i += 1;
    Ok((attr_name, value, i))
}

/// Reads a start tag or an empty-element tag that starts at `pos`.
fn parse_open_tag(bytes: &[u8], pos: usize) -> (r: Result<(XmlToken, usize), String>)
    requires
        valid_utf8(bytes@),
        pos < bytes@.len(),
        bytes@[pos as int] == 0x3Cu8,
    ensures
        match r {
            Ok((t, np)) => spec_parse_open_tag(bytes@, pos as int) == Ok::<
                (SpecToken, int),
                Seq<char>,
            >((t@, np as int)) && pos < np <= bytes@.len() && bytes@[np - 1] == 0x3Eu8,
            Err(m) => spec_parse_open_tag(bytes@, pos as int) == Err::<(SpecToken, int), Seq<char>>(
                m@,
            ),
        },
{
    let len = bytes.len();
    let name_start = pos + 1;
    let mut i = name_start;
    while i < len && !ascii_ws(bytes[i]) && bytes[i] != 0x3Eu8 && bytes[i] != 0x2Fu8
        invariant
            name_start <= i <= len,
            len == bytes@.len(),
            open_name_end(bytes@, name_start as int) == open_name_end(bytes@, i as int),
        decreases len - i,
    {
        i += 1;
    }
    if i == name_start {
        return Err(msg_at_pos("Empty tag name at position ", pos));
    }
    proof {
        lemma_boundary_at_ascii(bytes@, pos as int);
        lemma_boundary_after_ascii(bytes@, pos as int);
        lemma_boundary_at_ascii(bytes@, i as int);
    }
    let name = decode_range(bytes, name_start, i);
    let mut attrs: Vec<(String, String)> = Vec::new();
    proof {
        assert(attrs_view(attrs@) =~= seq![]);
    }
    loop
        invariant
            name_start < i <= len,
            name_start == pos + 1,
            len == bytes@.len(),
            valid_utf8(bytes@),
            is_char_boundary(bytes@, i as int),
            spec_parse_open_tag(bytes@, pos as int) == spec_tag_rest(
                bytes@,
                i as int,
                name@,
                attrs_view(attrs@),
            ),
        decreases len - i,
    {
        let j = skip_ascii_ws(bytes, i);
        proof {
            lemma_skip_ws_boundary(bytes@, i as int);
        }
        if j >= len {
            return Err(concat3("Unterminated tag '<", name.as_str(), "'"));
        }
        if bytes[j] == 0x2Fu8 {
            if j + 1 < len && bytes[j + 1] == 0x3Eu8 {
                return Ok((XmlToken::SelfClosingTag { name, attrs }, j + 2));
            }
            return Err(concat3("Expected '>' after '/' in tag '<", name.as_str(), "'"));
        }
        if bytes[j] == 0x3Eu8 {
            return Ok((XmlToken::OpenTag { name, attrs }, j + 1));
        }
        match parse_attribute(bytes, j) {
            Err(m) => {
                return Err(m);
            },
            Ok((k, v, nj)) => {
                let ghost old_attrs = attrs@;
                attrs.push((k, v));
                proof {
                    assert(attrs_view(attrs@) =~= attrs_view(old_attrs).push((k@, v@)));
                    lemma_boundary_at_ascii(bytes@, nj - 1);
                    lemma_boundary_after_ascii(bytes@, nj - 1);
                }
                i = nj;
            },
        }
    }
}

/// The position of the first `target` in the ten bytes from `start` on.
fn find_byte(bytes: &[u8], start: usize, target: u8) -> (r: Option<usize>)
    requires
        start <= bytes@.len(),
    ensures
        match r {
            Some(k) => spec_find_byte(bytes@, start as int, target) == Some(k as int) && start <= k
                < bytes@.len() && bytes@[k as int] == target,
            None => spec_find_byte(bytes@, start as int, target) is None,
        },
{
    let end = if bytes.len() - start < 10 {
        bytes.len()
    } else {
        start + 10
    };
    let ghost e = end as int;
    let mut i = start;
    while i < end
        invariant
            start <= i <= end,
            end <= bytes@.len(),
            e == end,
            spec_find_byte(bytes@, start as int, target) == find_in(bytes@, i as int, e, target),
        decreases end - i,
    {
        if bytes[i] == target {
            return Some(i);
        }
        i += 1;
    }
    None
}

/// Whether `bytes` holds the byte `t`.
fn contains_byte(bytes: &[u8], t: u8) -> (r: bool)
    ensures
        r == bytes@.contains(t),
{
    let mut i: usize = 0;
    while i < bytes.len()
        invariant
            i <= bytes@.len(),
            forall|j: int| 0 <= j < i ==> bytes@[j] != t,
        decreases bytes.len() - i,
    {
        if bytes[i] == t {
            proof {
                assert(bytes@[i as int] == t);
            }
            return true;
        }
        i += 1;
    }
    false
}

/// A numeric character reference: `entity` is what lies between `&` and `;`
/// and begins with `#`.
fn parse_numeric_entity(entity: &[u8]) -> (r: Option<char>)
    requires
        entity@.len() > 0,
    ensures
        r == spec_numeric_entity(entity@),
{
    let body = &entity[1..entity.len()];
    let n = if body.len() > 0 && (body[0] == 0x78u8 || body[0] == 0x58u8) {
        let hex = &body[1..body.len()];
        parse_u32_radix(hex, 16)
    } else {
        parse_u32_radix(body, 10)
    };
    match n {
        Some(cp) => char_from_u32(cp),
        None => None,
    }
}

/// Whether `b[i..k]` are exactly the given ASCII bytes.
pub fn range_is(b: &[u8], i: usize, k: usize, lit: &[u8]) -> (r: bool)
    requires
        i <= k <= b@.len(),
    ensures
        r == (b@.subrange(i as int, k as int) == lit@),
{
    if k - i != lit.len() {
        return false;
    }
    let mut j: usize = 0;
    while j < lit.len()
        invariant
            k - i == lit@.len(),
            i <= k <= b@.len(),
            j <= lit@.len(),
            forall|t: int| 0 <= t < j ==> b@[i + t] == lit@[t],
        decreases lit.len() - j,
    {
        if b[i + j] != lit[j] {
            proof {
                assert(b@.subrange(i as int, k as int)[j as int] != lit@[j as int]);
            }
            return false;
        }
        j += 1;
    }
    proof {
        assert(b@.subrange(i as int, k as int) =~= lit@);
    }
    true
}

/// What replaces the reference `b[i..=k]`.
fn entity_piece_exec(b: &[u8], i: usize, k: usize) -> (r: String)
    requires
        valid_utf8(b@),
        i < k < b@.len(),
        b@[i as int] == 0x26u8,
        b@[k as int] == 0x3Bu8,
    ensures
        r@ == entity_piece(b@, i as int, k as int),
{
    let mut out = String::new();
    let amp: [u8; 3] = [0x61u8, 0x6Du8, 0x70u8];
    let lt: [u8; 2] = [0x6Cu8, 0x74u8];
    let gt: [u8; 2] = [0x67u8, 0x74u8];
    let quot: [u8; 4] = [0x71u8, 0x75u8, 0x6Fu8, 0x74u8];
    let apos: [u8; 4] = [0x61u8, 0x70u8, 0x6Fu8, 0x73u8];
    proof {
        assert(amp@ =~= seq![0x61u8, 0x6Du8, 0x70u8]);
        assert(lt@ =~= seq![0x6Cu8, 0x74u8]);
        assert(gt@ =~= seq![0x67u8, 0x74u8]);
        assert(quot@ =~= seq![0x71u8, 0x75u8, 0x6Fu8, 0x74u8]);
        assert(apos@ =~= seq![0x61u8, 0x70u8, 0x6Fu8, 0x73u8]);
    }
    if range_is(b, i + 1, k, &amp) {
        push_char(&mut out, '&');
        return out;
    }
    if range_is(b, i + 1, k, &lt) {
        push_char(&mut out, '<');
        return out;
    }
    if range_is(b, i + 1, k, &gt) {
        push_char(&mut out, '>');
        return out;
    }
    if range_is(b, i + 1, k, &quot) {
        push_char(&mut out, '"');
        return out;
    }
    if range_is(b, i + 1, k, &apos) {
        push_char(&mut out, '\'');
        return out;
    }
    proof {
        lemma_boundary_at_ascii(b@, i as int);
        lemma_boundary_at_ascii(b@, k as int);
        lemma_boundary_after_ascii(b@, k as int);
    }
    if k > i + 1 && b[i + 1] == 0x23u8 {
        let entity = &b[i + 1..k];
        match parse_numeric_entity(entity) {
            Some(c) => {
                push_char(&mut out, c);
                return out;
            },
            None => {
                return decode_range(b, i, k + 1);
            },
        }
    }
    decode_range(b, i, k + 1)
}

/// Resolves the entity references `&amp;` `&lt;` `&gt;` `&quot;` `&apos;`
/// and numeric references such as `&#65;` or `&#x41;`. Unknown or malformed
/// references are kept as they are, and an `&` without a `;` within the next
/// ten bytes is kept alone.
pub fn resolve_entities(input: &str) -> (r: String)
    ensures
        r@ == resolve_text(input.spec_bytes()),
{
    let bytes = input.as_bytes();
    proof {
        encode_utf8_valid_utf8(input@);
    }
    if !contains_byte(bytes, 0x26u8) {
        proof {
            encode_utf8_decode_utf8(input@);
        }
        return input.to_owned();
    }
    let len = bytes.len();
    let mut result = String::new();
    let mut i: usize = 0;
    proof {
        is_char_boundary_start_end_of_seq(bytes@);
    }
    while i < len
        invariant
            len == bytes@.len(),
            i <= len,
            valid_utf8(bytes@),
            bytes@ == input.spec_bytes(),
            is_char_boundary(bytes@, i as int),
            result@ + resolve_from(bytes@, i as int) == resolve_from(bytes@, 0),
        decreases len - i,
    {
        if bytes[i] == 0x26u8 {
            proof {
                lemma_boundary_after_ascii(bytes@, i as int);
            }
            match find_byte(bytes, i + 1, 0x3Bu8) {
                Some(k) => {
                    proof {
                        lemma_boundary_at_ascii(bytes@, k as int);
                        lemma_boundary_after_ascii(bytes@, k as int);
                    }
                    let piece = entity_piece_exec(bytes, i, k);
                    let ghost before = result@;
                    result.append(piece.as_str());
                    proof {
                        assert(before + (piece@ + resolve_from(bytes@, k + 1)) =~= result@
                            + resolve_from(bytes@, k + 1));
                    }
                    i = k + 1;
                },
                None => {
                    let ghost before = result@;
                    push_char(&mut result, '&');
                    proof {
                        assert(before + (seq!['&'] + resolve_from(bytes@, i + 1)) =~= result@
                            + resolve_from(bytes@, i + 1));
                    }
                    i += 1;
                },
            }
        } else {
            let mut j = i;
            while j < len && bytes[j] != 0x26u8
                invariant
                    i <= j <= len,
                    len == bytes@.len(),
                    scan_until(bytes@, i as int, |x: u8| x == 0x26u8) == scan_until(
                        bytes@,
                        j as int,
                        |x: u8| x == 0x26u8,
                    ),
                decreases len - j,
            {
                j += 1;
            }
            proof {
                lemma_scan_until(bytes@, j as int, |x: u8| x == 0x26u8);
                lemma_boundary_at_ascii(bytes@, j as int);
            }
            let run = decode_range(bytes, i, j);
            let ghost before = result@;
            result.append(run.as_str());
            proof {
                assert(before + (run@ + resolve_from(bytes@, j as int)) =~= result@ + resolve_from(
                    bytes@,
                    j as int,
                ));
            }
            i = j;
        }
    }
    proof {
        assert(result@ + resolve_from(bytes@, i as int) =~= result@);
    }
    result
}

/// `m` begins with `p`.
pub open spec fn has_prefix(m: Seq<char>, p: Seq<char>) -> bool {
    p.len() <= m.len() && m.subrange(0, p.len() as int) == p
}

/// The tokens `p` put in front of an outcome.
pub open spec fn prepend(p: Seq<SpecToken>, r: Result<Seq<SpecToken>, Seq<char>>) -> Result<
    Seq<SpecToken>,
    Seq<char>,
> {
    match r {
        Ok(rest) => Ok(p + rest),
        Err(m) => Err(m),
    }
}

/// Nothing put in front of an outcome leaves it as it is.
proof fn lemma_prepend_empty(r: Result<Seq<SpecToken>, Seq<char>>)
    ensures
        prepend(Seq::<SpecToken>::empty(), r) == r,
{
    match r {
        Ok(rest) => {
            assert(Seq::<SpecToken>::empty() + rest =~= rest);
        },
        Err(_) => {},
    }
}

/// The token of one step, as a sequence of zero or one token.
pub open spec fn opt_seq(t: Option<SpecToken>) -> Seq<SpecToken> {
    match t {
        Some(x) => seq![x],
        None => seq![],
    }
}

/// After a successful step, the outcome from the old position is the step's
/// token followed by the outcome from the new position.
proof fn lemma_advance(b: Seq<u8>, pos: int, np: int, t: Option<SpecToken>, p: Seq<SpecToken>)
    requires
        0 <= pos < np <= b.len(),
        spec_step(b, pos) == Ok::<(Option<SpecToken>, int), Seq<char>>((t, np)),
    ensures
        prepend(p, spec_tokens_from(b, pos)) == prepend(p + opt_seq(t), spec_tokens_from(b, np)),
{
    match spec_tokens_from(b, np) {
        Ok(rest) => {
            match t {
                Some(x) => {
                    assert(p + (seq![x] + rest) =~= p + seq![x] + rest);
                },
                None => {
                    assert(p + rest =~= p + seq![] + rest);
                },
            }
        },
        Err(m) => {},
    }
}

/// A position just after an ASCII byte of well-formed UTF-8 is a character
/// boundary.
proof fn step_boundary(b: Seq<u8>, np: int)
    requires
        valid_utf8(b),
        0 < np <= b.len(),
        b[np - 1] < 0x80u8,
    ensures
        is_char_boundary(b, np),
{
    lemma_boundary_at_ascii(b, np - 1);
    lemma_boundary_after_ascii(b, np - 1);
}

/// The views of a token list grow with it.
proof fn lemma_push_view(old: Seq<XmlToken>, t: XmlToken)
    ensures
        tokens_view(old.push(t)) == tokens_view(old) + opt_seq(Some(t@)),
{
    assert(tokens_view(old.push(t)) =~= tokens_view(old) + opt_seq(Some(t@)));
}

/// The view of an optional token.
pub open spec fn opt_view(t: Option<XmlToken>) -> Option<SpecToken> {
    match t {
        Some(x) => Some(x@),
        None => None,
    }
}

/// One step of the tokenizer at `pos`: the token read there, if any, and the
/// position of the next step.
fn next_token(bytes: &[u8], pos: usize) -> (r: Result<(Option<XmlToken>, usize), String>)
    requires
        valid_utf8(bytes@),
        pos < bytes@.len(),
        is_char_boundary(bytes@, pos as int),
    ensures
        match r {
            Ok((t, np)) => spec_step(bytes@, pos as int) == Ok::<
                (Option<SpecToken>, int),
                Seq<char>,
            >((opt_view(t), np as int)) && pos < np <= bytes@.len() && is_char_boundary(
                bytes@,
                np as int,
            ),
            Err(m) => spec_step(bytes@, pos as int) == Err::<(Option<SpecToken>, int), Seq<char>>(
                m@,
            ),
        },
{
    let len = bytes.len();
    if bytes[pos] == 0x3Cu8 {
        if len - pos <= 1 {
            return Err(String::from_str("Unexpected end of input after '<'"));
        }
        let comment: [u8; 4] = [0x3Cu8, 0x21u8, 0x2Du8, 0x2Du8];
        let cdata: [u8; 9] = [0x3Cu8, 0x21u8, 0x5Bu8, 0x43u8, 0x44u8, 0x41u8, 0x54u8, 0x41u8, 0x5Bu8];
        let doctype: [u8; 9] = [0x3Cu8, 0x21u8, 0x44u8, 0x4Fu8, 0x43u8, 0x54u8, 0x59u8, 0x50u8, 0x45u8];
        let pi: [u8; 2] = [0x3Cu8, 0x3Fu8];
        proof {
            assert(comment@ =~= comment_open());
            assert(cdata@ =~= cdata_open());
            assert(doctype@ =~= doctype_open());
            assert(pi@ =~= pi_open());
        }
        if starts_with_at(bytes, pos, &comment) {
            match skip_comment(bytes, pos) {
                Ok(np) => {
                    proof {
                        step_boundary(bytes@, np as int);
                    }
                    Ok((None, np))
                },
                Err(m) => Err(m),
            }
        } else if starts_with_at(bytes, pos, &cdata) {
            match parse_cdata(bytes, pos) {
                Ok((text, np)) => {
                    proof {
                        step_boundary(bytes@, np as int);
                    }
                    if text.as_str().is_empty() {
                        Ok((None, np))
                    } else {
                        Ok((Some(XmlToken::Text(text)), np))
                    }
                },
                Err(m) => Err(m),
            }
        } else if starts_with_at_ci(bytes, pos, &doctype) {
            match skip_doctype(bytes, pos) {
                Ok(np) => {
                    proof {
                        step_boundary(bytes@, np as int);
                    }
                    Ok((None, np))
                },
                Err(m) => Err(m),
            }
        } else if starts_with_at(bytes, pos, &pi) {
            match skip_pi(bytes, pos) {
                Ok(np) => {
                    proof {
                        step_boundary(bytes@, np as int);
                    }
                    Ok((None, np))
                },
                Err(m) => Err(m),
            }
        } else if bytes[pos + 1] == 0x2Fu8 {
            match parse_close_tag(bytes, pos) {
                Ok((name, np)) => {
                    proof {
                        step_boundary(bytes@, np as int);
                    }
                    Ok((Some(XmlToken::CloseTag { name }), np))
                },
                Err(m) => Err(m),
            }
        } else {
            match parse_open_tag(bytes, pos) {
                Ok((t, np)) => {
                    proof {
                        step_boundary(bytes@, np as int);
                    }
                    Ok((Some(t), np))
                },
                Err(m) => Err(m),
            }
        }
    } else {
        let start = pos;
        let mut i = pos;
        while i < len && bytes[i] != 0x3Cu8
            invariant
                start <= i <= len,
                len == bytes@.len(),
                text_end(bytes@, start as int) == text_end(bytes@, i as int),
            decreases len - i,
        {
            i += 1;
        }
        proof {
            lemma_boundary_at_ascii(bytes@, i as int);
            lemma_scan_until(bytes@, start as int, |c: u8| c == 0x3Cu8);
        }
        let text = resolve_range(bytes, start, i);
        if text.as_str().is_empty() {
            Ok((None, i))
        } else {
            Ok((Some(XmlToken::Text(text)), i))
        }
    }
}

/// Tokenizes a UTF-8 byte string.
///
/// Start tags, end tags, empty-element tags and text are told apart;
/// comments, processing instructions and DOCTYPE declarations are skipped;
/// a CDATA section becomes text; entity references are resolved in text and
/// attribute values. Text made of whitespace only is kept.
pub fn tokenize(data: &[u8]) -> (r: Result<Vec<XmlToken>, String>)
    ensures
        !valid_utf8(data@) ==> (r matches Err(m) && has_prefix(m@, "Invalid UTF-8: "@)),
        valid_utf8(data@) ==> match r {
            Ok(t) => spec_tokenize(data@) == Ok::<Seq<SpecToken>, Seq<char>>(tokens_view(t@)),
            Err(m) => spec_tokenize(data@) == Err::<Seq<SpecToken>, Seq<char>>(m@),
        },
{
    match str_from_utf8(data) {
        Ok(_) => {},
        Err(e) => {
            let t = utf8_error_text(&e);
            let m = concat_str("Invalid UTF-8: ", t.as_str());
            proof {
                assert(m@.subrange(0, "Invalid UTF-8: "@.len() as int) =~= "Invalid UTF-8: "@);
            }
            return Err(m);
        },
    }
    let len = data.len();
    let mut pos: usize = 0;
    let mut tokens: Vec<XmlToken> = Vec::new();
    proof {
        is_char_boundary_start_end_of_seq(data@);
        assert(tokens_view(tokens@) =~= Seq::<SpecToken>::empty());
        lemma_prepend_empty(spec_tokens_from(data@, 0));
    }
    while pos < len
        invariant
            len == data@.len(),
            pos <= len,
            valid_utf8(data@),
            is_char_boundary(data@, pos as int),
            spec_tokenize(data@) == prepend(tokens_view(tokens@), spec_tokens_from(data@, pos as int)),
        decreases len - pos,
    {
        match next_token(data, pos) {
            Err(m) => {
                return Err(m);
            },
            Ok((t, np)) => {
                proof {
                    lemma_advance(data@, pos as int, np as int, opt_view(t), tokens_view(tokens@));
                }
                match t {
                    Some(tok) => {
                        proof {
                            lemma_push_view(tokens@, tok);
                        }
                        tokens.push(tok);
                    },
                    None => {
                        proof {
                            assert(tokens_view(tokens@) + opt_seq(None) =~= tokens_view(tokens@));
                        }
                    },
                }
                pos = np;
            },
        }
    }
    proof {
        assert(tokens_view(tokens@) + seq![] =~= tokens_view(tokens@));
    }
    Ok(tokens)
}


// ------------------------------------------------------------------
// Text without references
// ------------------------------------------------------------------

/// The UTF-8 encoding of a character other than `&` holds no `&` byte: a
/// one-byte encoding is the character itself, and every byte of a longer
/// one has its high bit set.
proof fn lemma_scalar_has_no_amp(c: char)
    requires
        c != '&',
    ensures
        !encode_scalar(c as u32).contains(0x26u8),
{
    let v = c as u32;
    let e = encode_scalar(v);
    if has_width_1_encoding(v) {
        assert((v & 0x7F) as u8 != 0x26u8) by (bit_vector)
            requires
                v <= 0x7F,
                v != 0x26,
        ;
    } else {
        assert((0xC0u8 | ((v >> 6) & 0x1F) as u8) != 0x26u8) by (bit_vector);
        assert((0xE0u8 | ((v >> 12) & 0x0F) as u8) != 0x26u8) by (bit_vector);
        assert((0xF0u8 | ((v >> 18) & 0x7) as u8) != 0x26u8) by (bit_vector);
        assert((0x80u8 | (v & 0x3F) as u8) != 0x26u8) by (bit_vector);
        assert((0x80u8 | ((v >> 6) & 0x3F) as u8) != 0x26u8) by (bit_vector);
        assert((0x80u8 | ((v >> 12) & 0x3F) as u8) != 0x26u8) by (bit_vector);
    }
    assert forall|i: int| 0 <= i < e.len() implies e[i] != 0x26u8 by {}
}

proof fn lemma_encoding_has_no_amp(s: Seq<char>)
    requires
        !s.contains('&'),
    ensures
        !encode_utf8(s).contains(0x26u8),
    decreases s.len(),
{
    if s.len() > 0 {
        assert(s[0] != '&');
        lemma_scalar_has_no_amp(s[0]);
        let rest = s.drop_first();
        if rest.contains('&') {
            let k = choose|k: int| 0 <= k < rest.len() && rest[k] == '&';
            assert(s[k + 1] == '&');
        }
        lemma_encoding_has_no_amp(rest);
        let a = encode_scalar(s[0] as u32);
        let b = encode_utf8(rest);
        assert forall|i: int| 0 <= i < (a + b).len() implies (a + b)[i] != 0x26u8 by {
            if i < a.len() {
                assert(a[i] != 0x26u8);
            } else {
                assert(b[i - a.len()] != 0x26u8);
            }
        }
    }
}

/// Text in which no `&` occurs comes back from entity resolution as it
/// was.
pub proof fn text_without_references_is_kept(s: Seq<char>)
    requires
        !s.contains('&'),
    ensures
        resolve_text(encode_utf8(s)) == s,
{
    lemma_encoding_has_no_amp(s);
    encode_utf8_decode_utf8(s);
}

} // verus!
