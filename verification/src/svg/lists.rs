//! Attribute values that are lists of numbers separated by commas or ASCII
//! whitespace, such as `points`, `viewBox` and `stroke-dasharray`.

use vstd::prelude::*;
use vstd::string::*;
use crate::text::{is_ascii_ws, lemma_scan_until, scan_until};

verus! {

/// A list separator: a comma or ASCII whitespace.
pub open spec fn is_list_sep(b: u8) -> bool {
    b == 0x2Cu8 || is_ascii_ws(b)
}

/// The items of a list from `p` on, by their byte ranges: the non-empty
/// runs of bytes between separators.
pub open spec fn list_items_from(d: Seq<u8>, p: int) -> Seq<(usize, usize)>
    decreases d.len() - p,
{
    let s = scan_until(d, p, |b: u8| !is_list_sep(b));
    if s >= d.len() {
        seq![]
    } else {
        let e = scan_until(d, s, |b: u8| is_list_sep(b));
        if p < e <= d.len() {
            seq![(s as usize, e as usize)] + list_items_from(d, e)
        } else {
            seq![]
        }
    }
}

/// The items of the list `text`, by the byte ranges of their texts, in
/// order: what splitting at every comma and ASCII whitespace character and
/// dropping the empty pieces leaves.
pub fn list_items(text: &str) -> (r: Vec<(usize, usize)>)
    ensures
        r@ == list_items_from(text.spec_bytes(), 0),
{
    let d = text.as_bytes();
    let len = d.len();
    let mut items: Vec<(usize, usize)> = Vec::new();
    let mut p: usize = 0;
    proof {
        assert(items@ + list_items_from(d@, 0) =~= list_items_from(d@, 0));
    }
    loop
        invariant
            d@ == text.spec_bytes(),
            len == d@.len(),
            p <= len,
            list_items_from(d@, 0) == items@ + list_items_from(d@, p as int),
        decreases len - p,
    {
        let mut s = p;
        while s < len && (d[s] == 0x2Cu8 || d[s] == 0x20u8 || d[s] == 0x09u8 || d[s] == 0x0Au8
            || d[s] == 0x0Cu8 || d[s] == 0x0Du8)
            invariant
                p <= s <= len,
                len == d@.len(),
                scan_until(d@, p as int, |b: u8| !is_list_sep(b)) == scan_until(
                    d@,
                    s as int,
                    |b: u8| !is_list_sep(b),
                ),
            decreases len - s,
        {
            s += 1;
        }
        if s >= len {
            proof {
                assert(items@ + Seq::<(usize, usize)>::empty() =~= items@);
            }
            return items;
        }
        let mut e = s;
        while e < len && !(d[e] == 0x2Cu8 || d[e] == 0x20u8 || d[e] == 0x09u8 || d[e] == 0x0Au8
            || d[e] == 0x0Cu8 || d[e] == 0x0Du8)
            invariant
                s <= e <= len,
                len == d@.len(),
                scan_until(d@, s as int, |b: u8| is_list_sep(b)) == scan_until(
                    d@,
                    e as int,
                    |b: u8| is_list_sep(b),
                ),
            decreases len - e,
        {
            e += 1;
        }
        proof {
            lemma_scan_until(d@, e as int, |b: u8| is_list_sep(b));
            lemma_scan_until(d@, s as int, |b: u8| is_list_sep(b));
            assert(!is_list_sep(d@[s as int]));
            assert(e > s);
            assert(items@.push((s, e)) + list_items_from(d@, e as int) =~= items@ + (seq![(s, e)]
                + list_items_from(d@, e as int)));
        }
        items.push((s, e));
        p = e;
    }
}

} // verus!
