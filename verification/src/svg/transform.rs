//! The grammar of the `transform` attribute: a list of function calls such
//! as `translate(10, 20) rotate(45)`. Which functions are called, with the
//! byte ranges of their numbers, is decided here; building and multiplying
//! the matrices from the values is floating-point work done by the caller.

use vstd::prelude::*;
use vstd::string::*;
use crate::svg::path_data::{
    float_text, is_float_text, is_path_sep, number_end,
    number_text_end, skip_seps,
};
use crate::text::{is_alpha, is_digit, lemma_scan_until, scan_until, trim, trim_str};
use crate::xml::tokenizer::range_is;

verus! {

/// The blanks allowed between a function's name and its `(`: space, tab,
/// line feed and carriage return.
pub open spec fn is_blank(b: u8) -> bool {
    b == 0x20u8 || b == 0x09u8 || b == 0x0Au8 || b == 0x0Du8
}

/// The position after the blanks that start at `p`.
pub open spec fn skip_blanks(d: Seq<u8>, p: int) -> int {
    scan_until(d, p, |b: u8| !is_blank(b))
}

/// Skips blanks from `pos`; returns the next position that holds none (a
/// position past the end is returned as it is).
pub fn skip_whitespace(bytes: &[u8], pos: usize) -> (r: usize)
    ensures
        r == skip_blanks(bytes@, pos as int),
        pos <= r,
        pos <= bytes@.len() ==> r <= bytes@.len(),
        pos > bytes@.len() ==> r == pos,
{
    let mut p = pos;
    while p < bytes.len() && (bytes[p] == 0x20u8 || bytes[p] == 0x09u8 || bytes[p] == 0x0Au8
        || bytes[p] == 0x0Du8)
        invariant
            pos <= p,
            pos <= bytes@.len() ==> p <= bytes@.len(),
            pos > bytes@.len() ==> p == pos,
            skip_blanks(bytes@, pos as int) == skip_blanks(bytes@, p as int),
        decreases bytes.len() - p,
    {
        p += 1;
    }
    p
}

/// Skips blanks and commas from `pos`; returns the next position that holds
/// neither (a position past the end is returned as it is).
pub fn skip_whitespace_and_commas(bytes: &[u8], pos: usize) -> (r: usize)
    ensures
        r == skip_seps(bytes@, pos as int),
        pos <= r,
        pos <= bytes@.len() ==> r <= bytes@.len(),
        pos > bytes@.len() ==> r == pos,
{
    let mut p = pos;
    while p < bytes.len() && (bytes[p] == 0x20u8 || bytes[p] == 0x09u8 || bytes[p] == 0x0Au8
        || bytes[p] == 0x0Du8 || bytes[p] == 0x2Cu8)
        invariant
            pos <= p,
            pos <= bytes@.len() ==> p <= bytes@.len(),
            pos > bytes@.len() ==> p == pos,
            skip_seps(bytes@, pos as int) == skip_seps(bytes@, p as int),
        decreases bytes.len() - p,
    {
        p += 1;
    }
    p
}

/// The transform functions.
#[derive(Clone, Copy, Debug, PartialEq, Eq, Structural)]
pub enum TransformFn {
    Translate,
    Scale,
    Rotate,
    SkewX,
    SkewY,
    Matrix,
}

/// One call of the list: its function and the byte ranges of its numbers
/// in the trimmed attribute.
#[derive(Clone, Debug)]
pub struct TransformCall {
    pub function: TransformFn,
    pub args: Vec<(usize, usize)>,
}

/// The mathematical form of [`TransformCall`].
pub struct SpecCall {
    pub function: TransformFn,
    pub args: Seq<(usize, usize)>,
}

impl View for TransformCall {
    type V = SpecCall;

    open spec fn view(&self) -> SpecCall {
        SpecCall { function: self.function, args: self.args@ }
    }
}

/// The views of a list of calls.
pub open spec fn calls_view(v: Seq<TransformCall>) -> Seq<SpecCall> {
    v.map_values(|c: TransformCall| c@)
}

/// The function a name denotes: `translate`, `scale`, `rotate`, `skewX`,
/// `skewY` or `matrix`, spelt exactly so.
pub open spec fn function_named(n: Seq<u8>) -> Option<TransformFn> {
    if n == seq![0x74u8, 0x72u8, 0x61u8, 0x6Eu8, 0x73u8, 0x6Cu8, 0x61u8, 0x74u8, 0x65u8] {
        Some(TransformFn::Translate)
    } else if n == seq![0x73u8, 0x63u8, 0x61u8, 0x6Cu8, 0x65u8] {
        Some(TransformFn::Scale)
    } else if n == seq![0x72u8, 0x6Fu8, 0x74u8, 0x61u8, 0x74u8, 0x65u8] {
        Some(TransformFn::Rotate)
    } else if n == seq![0x73u8, 0x6Bu8, 0x65u8, 0x77u8, 0x58u8] {
        Some(TransformFn::SkewX)
    } else if n == seq![0x73u8, 0x6Bu8, 0x65u8, 0x77u8, 0x59u8] {
        Some(TransformFn::SkewY)
    } else if n == seq![0x6Du8, 0x61u8, 0x74u8, 0x72u8, 0x69u8, 0x78u8] {
        Some(TransformFn::Matrix)
    } else {
        None
    }
}

/// The numbers of arguments a function accepts: one or two for `translate`
/// and `scale`, one or three for `rotate`, one for the skews and six for
/// `matrix`.
pub open spec fn takes(f: TransformFn, n: nat) -> bool {
    match f {
        TransformFn::Translate => n == 1 || n == 2,
        TransformFn::Scale => n == 1 || n == 2,
        TransformFn::Rotate => n == 1 || n == 3,
        TransformFn::SkewX => n == 1,
        TransformFn::SkewY => n == 1,
        TransformFn::Matrix => n == 6,
    }
}

/// The numbers of an argument list that ends at `close`, from `pos`: the
/// byte range of each, separated by blanks or commas, up to the first text
/// that is no float literal (the rest is ignored).
pub open spec fn number_list(t: Seq<u8>, pos: int, close: int) -> Seq<(usize, usize)>
    decreases close - pos,
{
    let s = skip_seps(t, pos);
    let e = number_end(t, s);
    if s >= close || e == s || !is_float_text(t, s, e) {
        seq![]
    } else if pos < e <= close {
        seq![(s as usize, e as usize)] + number_list(t, e, close)
    } else {
        seq![]
    }
}

/// The calls of a transform list from `pos` on, or `None` when it is
/// malformed: a name that is missing or unknown, a missing `(` or `)`, or a
/// number of arguments the function does not take.
pub open spec fn calls_from(t: Seq<u8>, pos: int) -> Option<Seq<SpecCall>>
    decreases t.len() - pos,
{
    let p = skip_seps(t, pos);
    if p >= t.len() {
        Some(seq![])
    } else {
        let ne = scan_until(t, p, |b: u8| !is_alpha(b));
        let q = skip_blanks(t, ne);
        if ne == p || q >= t.len() || t[q] != 0x28u8 {
            None
        } else {
            let close = scan_until(t, q + 1, |b: u8| b == 0x29u8);
            if close >= t.len() {
                None
            } else {
                let args = number_list(t, q + 1, close);
                match function_named(t.subrange(p, ne)) {
                    None => None,
                    Some(f) => if !takes(f, args.len()) {
                        None
                    } else if pos < close + 1 {
                        match calls_from(t, close + 1) {
                            None => None,
                            Some(rest) => Some(seq![SpecCall { function: f, args }] + rest),
                        }
                    } else {
                        None
                    },
                }
            }
        }
    }
}

/// The calls of the (trimmed) transform list `t`, or `None` when it is
/// malformed.
pub open spec fn spec_transform_calls(t: Seq<u8>) -> Option<Seq<SpecCall>> {
    calls_from(t, 0)
}

/// The number scanner stops at a byte that can continue no number.
proof fn lemma_number_end_before(d: Seq<u8>, s: int, c: int)
    requires
        0 <= s <= c < d.len(),
        !is_digit(d[c]),
        d[c] != 0x2Eu8,
        d[c] != 0x65u8,
        d[c] != 0x45u8,
        d[c] != 0x2Bu8,
        d[c] != 0x2Du8,
    ensures
        s <= number_end(d, s) <= c,
{
    let q = if s < d.len() && (d[s] == 0x2Du8 || d[s] == 0x2Bu8) {
        s + 1
    } else {
        s
    };
    lemma_body_end_before(d, q, false, false, c);
}

proof fn lemma_body_end_before(d: Seq<u8>, p: int, has_dot: bool, has_exp: bool, c: int)
    requires
        0 <= p <= c < d.len(),
        !is_digit(d[c]),
        d[c] != 0x2Eu8,
        d[c] != 0x65u8,
        d[c] != 0x45u8,
        d[c] != 0x2Bu8,
        d[c] != 0x2Du8,
    ensures
        p <= crate::svg::path_data::number_body_end(d, p, has_dot, has_exp) <= c,
    decreases c - p,
{
    if p < c {
        if is_digit(d[p]) {
            lemma_body_end_before(d, p + 1, has_dot, has_exp, c);
        } else if d[p] == 0x2Eu8 && !has_dot && !has_exp {
            lemma_body_end_before(d, p + 1, true, has_exp, c);
        } else if (d[p] == 0x65u8 || d[p] == 0x45u8) && !has_exp {
            let q = if p + 1 < d.len() && (d[p + 1] == 0x2Du8 || d[p + 1] == 0x2Bu8) {
                p + 2
            } else {
                p + 1
            };
            lemma_body_end_before(d, q, has_dot, true, c);
        }
    }
}

/// Executable form of [`number_list`]: the numbers of the argument list in
/// `t[start..close]`, where `t[close]` is `)`.
pub fn parse_number_list(t: &[u8], start: usize, close: usize) -> (r: Vec<(usize, usize)>)
    requires
        start <= close < t@.len(),
        t@[close as int] == 0x29u8,
    ensures
        r@ == number_list(t@, start as int, close as int),
{
    let mut nums: Vec<(usize, usize)> = Vec::new();
    let mut pos = start;
    proof {
        assert(nums@ + number_list(t@, pos as int, close as int) =~= number_list(
            t@,
            pos as int,
            close as int,
        ));
    }
    loop
        invariant
            start <= pos <= close < t@.len(),
            t@[close as int] == 0x29u8,
            number_list(t@, start as int, close as int) == nums@ + number_list(
                t@,
                pos as int,
                close as int,
            ),
        decreases close - pos,
    {
        let s = skip_whitespace_and_commas(t, pos);
        proof {
            lemma_scan_until(t@, pos as int, |b: u8| !is_path_sep(b));
        }
        if s >= close {
            proof {
                assert(nums@ + Seq::<(usize, usize)>::empty() =~= nums@);
            }
            return nums;
        }
        let e = number_text_end(t, s);
        proof {
            lemma_number_end_before(t@, s as int, close as int);
        }
        if e == s || !float_text(t, s, e) {
            proof {
                assert(nums@ + Seq::<(usize, usize)>::empty() =~= nums@);
            }
            return nums;
        }
        proof {
            assert(nums@.push((s, e)) + number_list(t@, e as int, close as int) =~= nums@ + (seq![
                (s, e),
            ] + number_list(t@, e as int, close as int)));
        }
        nums.push((s, e));
        pos = e;
    }
}

/// The function named by `t[p..ne]`, as [`function_named`] decides.
fn function_at(t: &[u8], p: usize, ne: usize) -> (r: Option<TransformFn>)
    requires
        p <= ne <= t@.len(),
    ensures
        r == function_named(t@.subrange(p as int, ne as int)),
{
    let translate: [u8; 9] = [0x74u8, 0x72u8, 0x61u8, 0x6Eu8, 0x73u8, 0x6Cu8, 0x61u8, 0x74u8, 0x65u8];
    let scale: [u8; 5] = [0x73u8, 0x63u8, 0x61u8, 0x6Cu8, 0x65u8];
    let rotate: [u8; 6] = [0x72u8, 0x6Fu8, 0x74u8, 0x61u8, 0x74u8, 0x65u8];
    let skew_x: [u8; 5] = [0x73u8, 0x6Bu8, 0x65u8, 0x77u8, 0x58u8];
    let skew_y: [u8; 5] = [0x73u8, 0x6Bu8, 0x65u8, 0x77u8, 0x59u8];
    let matrix: [u8; 6] = [0x6Du8, 0x61u8, 0x74u8, 0x72u8, 0x69u8, 0x78u8];
    proof {
        assert(translate@ =~= seq![0x74u8, 0x72u8, 0x61u8, 0x6Eu8, 0x73u8, 0x6Cu8, 0x61u8, 0x74u8, 0x65u8]);
        assert(scale@ =~= seq![0x73u8, 0x63u8, 0x61u8, 0x6Cu8, 0x65u8]);
        assert(rotate@ =~= seq![0x72u8, 0x6Fu8, 0x74u8, 0x61u8, 0x74u8, 0x65u8]);
        assert(skew_x@ =~= seq![0x73u8, 0x6Bu8, 0x65u8, 0x77u8, 0x58u8]);
        assert(skew_y@ =~= seq![0x73u8, 0x6Bu8, 0x65u8, 0x77u8, 0x59u8]);
        assert(matrix@ =~= seq![0x6Du8, 0x61u8, 0x74u8, 0x72u8, 0x69u8, 0x78u8]);
    }
    if range_is(t, p, ne, &translate) {
        Some(TransformFn::Translate)
    } else if range_is(t, p, ne, &scale) {
        Some(TransformFn::Scale)
    } else if range_is(t, p, ne, &rotate) {
        Some(TransformFn::Rotate)
    } else if range_is(t, p, ne, &skew_x) {
        Some(TransformFn::SkewX)
    } else if range_is(t, p, ne, &skew_y) {
        Some(TransformFn::SkewY)
    } else if range_is(t, p, ne, &matrix) {
        Some(TransformFn::Matrix)
    } else {
        None
    }
}

/// Executable form of [`takes`].
pub fn accepts_args(f: TransformFn, n: usize) -> (r: bool)
    ensures
        r == takes(f, n as nat),
{
    match f {
        TransformFn::Translate => n == 1 || n == 2,
        TransformFn::Scale => n == 1 || n == 2,
        TransformFn::Rotate => n == 1 || n == 3,
        TransformFn::SkewX => n == 1,
        TransformFn::SkewY => n == 1,
        TransformFn::Matrix => n == 6,
    }
}

/// Calls `xs` put in front of an outcome.
pub open spec fn prefix_calls(xs: Seq<SpecCall>, r: Option<Seq<SpecCall>>) -> Option<Seq<SpecCall>> {
    match r {
        Some(ys) => Some(xs + ys),
        None => None,
    }
}

/// Reads a `transform` attribute. It is trimmed first; the result is the
/// trimmed text and its calls, in the order written (the transform is their
/// product, left to right), with the byte ranges of their numbers in the
/// trimmed text; or `None` when the list is malformed, for which the
/// transform is the identity.
pub fn parse_transform_calls(attr: &str) -> (r: (&str, Option<Vec<TransformCall>>))
    ensures
        r.0@ == trim(attr@),
        match r.1 {
            Some(v) => spec_transform_calls(r.0.spec_bytes()) == Some(calls_view(v@)),
            None => spec_transform_calls(r.0.spec_bytes()) is None,
        },
{
    let t = trim_str(attr);
    let b = t.as_bytes();
    let len = b.len();
    let mut pos: usize = 0;
    let mut calls: Vec<TransformCall> = Vec::new();
    proof {
        match calls_from(b@, 0) {
            Some(ys) => {
                assert(calls_view(calls@) + ys =~= ys);
            },
            None => {},
        }
    }
    loop
        invariant
            b@ == t.spec_bytes(),
            t@ == trim(attr@),
            len == b@.len(),
            pos <= len,
            spec_transform_calls(b@) == prefix_calls(calls_view(calls@), calls_from(b@, pos as int)),
        decreases len - pos,
    {
        let p = skip_whitespace_and_commas(b, pos);
        if p >= len {
            proof {
                assert(calls_view(calls@) + Seq::<SpecCall>::empty() =~= calls_view(calls@));
            }
            return (t, Some(calls));
        }
        let mut ne = p;
        while ne < len && ((0x41u8 <= b[ne] && b[ne] <= 0x5Au8) || (0x61u8 <= b[ne] && b[ne]
            <= 0x7Au8))
            invariant
                p <= ne <= len,
                len == b@.len(),
                scan_until(b@, p as int, |c: u8| !is_alpha(c)) == scan_until(
                    b@,
                    ne as int,
                    |c: u8| !is_alpha(c),
                ),
            decreases len - ne,
        {
            ne += 1;
        }
        if ne == p {
            return (t, None);
        }
        let q = skip_whitespace(b, ne);
        if q >= len || b[q] != 0x28u8 {
            return (t, None);
        }
        let mut close = q + 1;
        while close < len && b[close] != 0x29u8
            invariant
                q + 1 <= close <= len,
                len == b@.len(),
                scan_until(b@, q + 1, |c: u8| c == 0x29u8) == scan_until(
                    b@,
                    close as int,
                    |c: u8| c == 0x29u8,
                ),
            decreases len - close,
        {
            close += 1;
        }
        if close >= len {
            return (t, None);
        }
        let args = parse_number_list(b, q + 1, close);
        let f = match function_at(b, p, ne) {
            Some(f) => f,
            None => {
                return (t, None);
            },
        };
        if !accepts_args(f, args.len()) {
            return (t, None);
        }
        let call = TransformCall { function: f, args };
        let ghost sc = call@;
        proof {
            assert(calls_view(calls@.push(call)) =~= calls_view(calls@) + seq![sc]);
            match calls_from(b@, close + 1) {
                Some(ys) => {
                    assert(calls_view(calls@) + (seq![sc] + ys) =~= (calls_view(calls@) + seq![sc])
                        + ys);
                },
                None => {},
            }
        }
        calls.push(call);
        pos = close + 1;
    }
}


// ------------------------------------------------------------------
// What every parsed call holds
// ------------------------------------------------------------------

/// A number's byte range as the list reader makes it: within `t`, not
/// empty, and a float literal.
pub open spec fn span_fits(t: Seq<u8>, a: (usize, usize)) -> bool {
    a.0 < a.1 <= t.len() && is_float_text(t, a.0 as int, a.1 as int)
}

/// A call as the reader makes it: as many arguments as its function takes,
/// each a float literal of `t`.
pub open spec fn call_fits(t: Seq<u8>, c: SpecCall) -> bool {
    takes(c.function, c.args.len()) && forall|j: int|
        0 <= j < c.args.len() ==> span_fits(t, #[trigger] c.args[j])
}

proof fn lemma_number_list(t: Seq<u8>, pos: int, close: int)
    requires
        0 <= pos <= close < t.len(),
        t[close] == 0x29u8,
        t.len() <= usize::MAX,
    ensures
        forall|j: int|
            0 <= j < number_list(t, pos, close).len() ==> span_fits(
                t,
                #[trigger] number_list(t, pos, close)[j],
            ),
    decreases close - pos,
{
    lemma_scan_until(t, pos, |b: u8| !is_path_sep(b));
    let s = skip_seps(t, pos);
    if s < close {
        lemma_number_end_before(t, s, close);
        let e = number_end(t, s);
        if e != s && is_float_text(t, s, e) && pos < e <= close {
            lemma_number_list(t, e, close);
            let l = number_list(t, pos, close);
            let rest = number_list(t, e, close);
            assert forall|j: int| 0 <= j < l.len() implies span_fits(t, #[trigger] l[j]) by {
                if j > 0 {
                    assert(l[j] == rest[j - 1]);
                }
            }
        }
    }
}

proof fn lemma_calls_from(t: Seq<u8>, pos: int)
    requires
        0 <= pos <= t.len(),
        t.len() <= usize::MAX,
    ensures
        calls_from(t, pos) matches Some(cs) ==> forall|j: int|
            0 <= j < cs.len() ==> call_fits(t, #[trigger] cs[j]),
    decreases t.len() - pos,
{
    lemma_scan_until(t, pos, |b: u8| !is_path_sep(b));
    let p = skip_seps(t, pos);
    if p < t.len() {
        let ne = scan_until(t, p, |b: u8| !is_alpha(b));
        lemma_scan_until(t, p, |b: u8| !is_alpha(b));
        let q = skip_blanks(t, ne);
        lemma_scan_until(t, ne, |b: u8| !is_blank(b));
        if ne != p && q < t.len() && t[q] == 0x28u8 {
            let close = scan_until(t, q + 1, |b: u8| b == 0x29u8);
            lemma_scan_until(t, q + 1, |b: u8| b == 0x29u8);
            if close < t.len() {
                let args = number_list(t, q + 1, close);
                lemma_number_list(t, q + 1, close);
                if let Some(f) = function_named(t.subrange(p, ne)) {
                    if takes(f, args.len()) && pos < close + 1 {
                        let c = SpecCall { function: f, args };
                        assert(call_fits(t, c));
                        lemma_calls_from(t, close + 1);
                        if let Some(rest) = calls_from(t, close + 1) {
                            let cs = seq![c] + rest;
                            assert forall|j: int| 0 <= j < cs.len() implies call_fits(
                                t,
                                #[trigger] cs[j],
                            ) by {
                                if j > 0 {
                                    assert(cs[j] == rest[j - 1]);
                                }
                            }
                        }
                    }
                }
            }
        }
    }
}

/// Every call that reading a transform list gives back has as many
/// arguments as its function takes (one or two for `translate` and
/// `scale`, one or three for `rotate`, one for a skew, six for `matrix`),
/// and every argument's text is a float literal.
pub proof fn transform_calls_fit(t: Seq<u8>)
    requires
        t.len() <= usize::MAX,
    ensures
        spec_transform_calls(t) matches Some(cs) ==> forall|j: int|
            0 <= j < cs.len() ==> call_fits(t, #[trigger] cs[j]),
{
    lemma_calls_from(t, 0);
}

} // verus!
