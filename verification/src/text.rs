//! Byte and character helpers shared by the readers: ASCII classes, UTF-8
//! decoding of byte ranges, decimal rendering of integers and the small
//! string-building steps.

use vstd::prelude::*;
use vstd::utf8::*;
use vstd::string::*;

verus! {

broadcast use vstd::seq::group_seq_axioms;

// ------------------------------------------------------------------
// ASCII classes
// ------------------------------------------------------------------

/// True for the bytes that `u8::is_ascii_whitespace` accepts: space, tab,
/// line feed, form feed and carriage return.
pub open spec fn is_ascii_ws(b: u8) -> bool {
    b == 0x20u8 || b == 0x09u8 || b == 0x0Au8 || b == 0x0Cu8 || b == 0x0Du8
}

/// Executable form of [`is_ascii_ws`].
pub fn ascii_ws(b: u8) -> (r: bool)
    ensures
        r == is_ascii_ws(b),
{
    b == 0x20u8 || b == 0x09u8 || b == 0x0Au8 || b == 0x0Cu8 || b == 0x0Du8
}

/// `u8::to_ascii_lowercase`: upper-case ASCII letters map to lower case,
/// every other byte is left alone.
pub open spec fn lower_byte(b: u8) -> u8 {
    if 0x41u8 <= b && b <= 0x5Au8 {
        (b + 32) as u8
    } else {
        b
    }
}

/// Executable form of [`lower_byte`].
pub fn ascii_lower(b: u8) -> (r: u8)
    ensures
        r == lower_byte(b),
{
    if 0x41u8 <= b && b <= 0x5Au8 {
        b + 32
    } else {
        b
    }
}

/// ASCII decimal digit.
pub open spec fn is_digit(b: u8) -> bool {
    0x30u8 <= b && b <= 0x39u8
}

/// ASCII letter.
pub open spec fn is_alpha(b: u8) -> bool {
    (0x41u8 <= b && b <= 0x5Au8) || (0x61u8 <= b && b <= 0x7Au8)
}

/// The ASCII-lower-cased copy of a byte sequence.
pub open spec fn lower_bytes(s: Seq<u8>) -> Seq<u8> {
    s.map_values(|b: u8| lower_byte(b))
}

/// Two byte sequences are equal once both are ASCII-lower-cased.
pub open spec fn eq_ignore_ascii_case(a: Seq<u8>, b: Seq<u8>) -> bool {
    lower_bytes(a) == lower_bytes(b)
}

// ------------------------------------------------------------------
// Scanning
// ------------------------------------------------------------------

/// The first index `>= i` at which `b` ends or `stop` holds of the byte.
pub open spec fn scan_until(b: Seq<u8>, i: int, stop: spec_fn(u8) -> bool) -> int
    decreases b.len() - i,
{
    if i < 0 || i >= b.len() {
        i
    } else if stop(b[i]) {
        i
    } else {
        scan_until(b, i + 1, stop)
    }
}

/// What [`scan_until`] returns lies between its start and the end, and every
/// byte that it passed over fails `stop`.
pub proof fn lemma_scan_until(b: Seq<u8>, i: int, stop: spec_fn(u8) -> bool)
    requires
        0 <= i <= b.len(),
    ensures
        i <= scan_until(b, i, stop) <= b.len(),
        scan_until(b, i, stop) < b.len() ==> stop(b[scan_until(b, i, stop)]),
        forall|k: int| i <= k < scan_until(b, i, stop) ==> !stop(#[trigger] b[k]),
    decreases b.len() - i,
{
    if i < b.len() && !stop(b[i]) {
        lemma_scan_until(b, i + 1, stop);
    }
}

/// The position after the ASCII whitespace that starts at `i`.
pub open spec fn skip_ws(b: Seq<u8>, i: int) -> int {
    scan_until(b, i, |c: u8| !is_ascii_ws(c))
}

/// Executable form of [`skip_ws`].
pub fn skip_ascii_ws(b: &[u8], i: usize) -> (r: usize)
    requires
        i <= b@.len(),
    ensures
        r == skip_ws(b@, i as int),
        i <= r <= b@.len(),
{
    let mut j = i;
    while j < b.len() && ascii_ws(b[j])
        invariant
            i <= j <= b@.len(),
            skip_ws(b@, i as int) == skip_ws(b@, j as int),
        decreases b.len() - j,
    {
        j += 1;
    }
    j
}

// ------------------------------------------------------------------
// UTF-8
// ------------------------------------------------------------------

/// Declares `core::str::Utf8Error`, the error of `core::str::from_utf8`, which
/// is carried through unread.
#[verifier::external_type_specification]
#[verifier::external_body]
pub struct ExUtf8Error(core::str::Utf8Error);

/// Calls `core::str::from_utf8`. Claimed of it: it succeeds exactly when the
/// bytes are well-formed UTF-8 (vstd's `valid_utf8`), and the string it gives
/// back is made of those very bytes.
#[verifier::external_body]
pub(crate) fn str_from_utf8(v: &[u8]) -> (r: Result<&str, core::str::Utf8Error>)
    ensures
        r is Ok <==> valid_utf8(v@),
        r matches Ok(s) ==> s.spec_bytes() == v@,
{
    core::str::from_utf8(v)
}

/// Calls `ToString::to_string` on a `core::str::Utf8Error`, that is its
/// `Display` text. Nothing is claimed of that text: its wording is not given
/// by the documentation.
#[verifier::external_body]
pub(crate) fn utf8_error_text(e: &core::str::Utf8Error) -> String {
    e.to_string()
}

/// If a byte at a character boundary is a one-byte (ASCII) character, the
/// next index is a character boundary too.
pub proof fn lemma_boundary_after_ascii(b: Seq<u8>, k: int)
    requires
        valid_utf8(b),
        0 <= k < b.len(),
        is_char_boundary(b, k),
        b[k] < 0x80u8,
    ensures
        is_char_boundary(b, k + 1),
    decreases b.len(),
{
    reveal_with_fuel(is_char_boundary, 2);
    if k == 0 {
        assert(length_of_first_scalar(b) == 1);
        is_char_boundary_start_end_of_seq(pop_first_scalar(b));
    } else {
        let n = length_of_first_scalar(b);
        lemma_pop_first(b);
        lemma_boundary_after_ascii(pop_first_scalar(b), k - n);
    }
}

proof fn lemma_pop_first(b: Seq<u8>)
    requires
        valid_utf8(b),
        b.len() > 0,
    ensures
        valid_utf8(pop_first_scalar(b)),
        1 <= length_of_first_scalar(b) <= 4,
        length_of_first_scalar(b) <= b.len(),
        pop_first_scalar(b) == b.subrange(length_of_first_scalar(b), b.len() as int),
        b[0] < 0x80u8 ==> length_of_first_scalar(b) == 1,
{
    reveal_with_fuel(valid_utf8, 2);
}

/// An index holding an ASCII byte is a character boundary.
pub proof fn lemma_boundary_at_ascii(b: Seq<u8>, k: int)
    requires
        valid_utf8(b),
        0 <= k <= b.len(),
        k < b.len() ==> b[k] < 0x80u8,
    ensures
        is_char_boundary(b, k),
{
    if k == b.len() {
        is_char_boundary_start_end_of_seq(b);
    } else {
        is_char_boundary_iff_not_is_continuation_byte(b, k);
    }
}

/// The bytes between two character boundaries of well-formed UTF-8 are
/// well-formed UTF-8 themselves.
pub proof fn lemma_valid_between(b: Seq<u8>, i: int, j: int)
    requires
        valid_utf8(b),
        0 <= i <= j <= b.len(),
        is_char_boundary(b, i),
        is_char_boundary(b, j),
    ensures
        valid_utf8(b.subrange(i, j)),
{
    valid_utf8_split(b, j);
    let pre = b.subrange(0, j);
    lemma_boundary_prefix(b, j, i);
    valid_utf8_split(pre, i);
    assert(pre.subrange(i, pre.len() as int) =~= b.subrange(i, j));
}

/// A boundary of a sequence that lies before a later boundary is a boundary
/// of the prefix that ends at the later one.
proof fn lemma_boundary_prefix(b: Seq<u8>, j: int, i: int)
    requires
        valid_utf8(b),
        0 <= i <= j <= b.len(),
        is_char_boundary(b, i),
        is_char_boundary(b, j),
    ensures
        valid_utf8(b.subrange(0, j)),
        is_char_boundary(b.subrange(0, j), i),
    decreases b.len(),
{
    valid_utf8_split(b, j);
    reveal_with_fuel(is_char_boundary, 2);
    if i == 0 {
    } else {
        let n = length_of_first_scalar(b);
        lemma_pop_first(b);
        let t = pop_first_scalar(b);
        let p = b.subrange(0, j);
        is_char_boundary_len_ge(b, i);
        is_char_boundary_len_ge(b, j);
        lemma_boundary_prefix(t, j - n, i - n);
        assert(p.len() > 0);
        lemma_pop_first(p);
        assert(length_of_first_scalar(p) == n);
        assert(pop_first_scalar(p) =~= t.subrange(0, j - n));
    }
}

proof fn is_char_boundary_len_ge(b: Seq<u8>, i: int)
    requires
        valid_utf8(b),
        is_char_boundary(b, i),
        i > 0,
    ensures
        b.len() > 0,
        i >= length_of_first_scalar(b),
        is_char_boundary(pop_first_scalar(b), i - length_of_first_scalar(b)),
{
    reveal_with_fuel(is_char_boundary, 2);
}

// ------------------------------------------------------------------
// String building
// ------------------------------------------------------------------

/// Calls `String::push`: appends one character.
#[verifier::external_body]
pub(crate) fn push_char(s: &mut String, c: char)
    ensures
        final(s)@ == old(s)@.push(c),
{
    s.push(c);
}

/// Calls `char::from_u32`, which returns the character with that code point
/// when the number is a Unicode scalar value (at most 0x10FFFF and outside the
/// surrogate range 0xD800..=0xDFFF), and `None` otherwise.
#[verifier::external_body]
pub(crate) fn char_from_u32(cp: u32) -> (r: Option<char>)
    ensures
        r == (if cp <= 0x10FFFFu32 && !(0xD800u32 <= cp && cp <= 0xDFFFu32) {
            Some(cp as char)
        } else {
            None
        }),
{
    char::from_u32(cp)
}

/// The ASCII digit for `d`, which is below ten.
pub open spec fn digit_char(d: nat) -> char {
    ((d + 48) as u8) as char
}

/// The decimal rendering of a natural number, without sign or leading zeros.
pub open spec fn decimal(n: nat) -> Seq<char>
    decreases n,
{
    if n < 10 {
        seq![digit_char(n)]
    } else {
        decimal(n / 10).push(digit_char(n % 10))
    }
}

/// Renders `n` in decimal, as `format!("{}", n)` does for an unsigned integer.
pub fn decimal_string(n: u64) -> (r: String)
    ensures
        r@ == decimal(n as nat),
    decreases n,
{
    if n < 10 {
        let mut s = String::new();
        let d: u8 = n as u8;
        push_char(&mut s, (d + 48u8) as char);
        s
    } else {
        let mut s = decimal_string(n / 10);
        let d: u8 = (n % 10) as u8;
        push_char(&mut s, (d + 48u8) as char);
        s
    }
}

/// `prefix` followed by `suffix`, as a new string.
pub fn concat_str(prefix: &str, suffix: &str) -> (r: String)
    ensures
        r@ == prefix@ + suffix@,
{
    let mut s = prefix.to_owned();
    s.append(suffix);
    s
}

// ------------------------------------------------------------------
// Characters
// ------------------------------------------------------------------

/// `char::is_whitespace`: the characters with the Unicode `White_Space`
/// property.
pub open spec fn is_white_space(c: char) -> bool {
    let u = c as u32;
    (0x09u32 <= u && u <= 0x0Du32) || u == 0x20u32 || u == 0x85u32 || u == 0xA0u32 || u
        == 0x1680u32 || (0x2000u32 <= u && u <= 0x200Au32) || u == 0x2028u32 || u == 0x2029u32
        || u == 0x202Fu32 || u == 0x205Fu32 || u == 0x3000u32
}

/// Whether a character has the Unicode `White_Space` property.
pub fn white_space(c: char) -> (r: bool)
    ensures
        r == is_white_space(c),
{
    let u = c as u32;
    (0x09u32 <= u && u <= 0x0Du32) || u == 0x20u32 || u == 0x85u32 || u == 0xA0u32 || u
        == 0x1680u32 || (0x2000u32 <= u && u <= 0x200Au32) || u == 0x2028u32 || u == 0x2029u32
        || u == 0x202Fu32 || u == 0x205Fu32 || u == 0x3000u32
}

/// The first index `>= i` that does not hold whitespace (or the end).
pub open spec fn ws_end(s: Seq<char>, i: int) -> int
    decreases s.len() - i,
{
    if i < 0 || i >= s.len() {
        i
    } else if is_white_space(s[i]) {
        ws_end(s, i + 1)
    } else {
        i
    }
}

/// The end of `s[..j]` once its trailing whitespace is dropped.
pub open spec fn ws_back(s: Seq<char>, j: int) -> int
    decreases j,
{
    if j <= 0 || j > s.len() {
        0
    } else if is_white_space(s[j - 1]) {
        ws_back(s, j - 1)
    } else {
        j
    }
}

/// `str::trim_start`.
pub open spec fn trim_start(s: Seq<char>) -> Seq<char> {
    s.subrange(ws_end(s, 0), s.len() as int)
}

/// `str::trim`: leading and trailing whitespace removed.
pub open spec fn trim(s: Seq<char>) -> Seq<char> {
    let a = ws_end(s, 0);
    let b = ws_back(s, s.len() as int);
    if a < b {
        s.subrange(a, b)
    } else {
        Seq::empty()
    }
}

proof fn lemma_ws_end(s: Seq<char>, i: int)
    requires
        0 <= i <= s.len(),
    ensures
        i <= ws_end(s, i) <= s.len(),
        ws_end(s, i) < s.len() ==> !is_white_space(s[ws_end(s, i)]),
    decreases s.len() - i,
{
    if i < s.len() && is_white_space(s[i]) {
        lemma_ws_end(s, i + 1);
    }
}

proof fn lemma_ws_back(s: Seq<char>, j: int)
    requires
        0 <= j <= s.len(),
    ensures
        0 <= ws_back(s, j) <= j,
        ws_back(s, j) > 0 ==> !is_white_space(s[ws_back(s, j) - 1]),
    decreases j,
{
    if j > 0 && is_white_space(s[j - 1]) {
        lemma_ws_back(s, j - 1);
    }
}

/// Trimming trimmed text changes nothing.
pub proof fn trim_is_idempotent(s: Seq<char>)
    ensures
        trim(trim(s)) == trim(s),
{
    lemma_ws_end(s, 0);
    lemma_ws_back(s, s.len() as int);
    let t = trim(s);
    if t.len() > 0 {
        let a = ws_end(s, 0);
        let b = ws_back(s, s.len() as int);
        assert(t[0] == s[a]);
        assert(t[t.len() - 1] == s[b - 1]);
        assert(ws_end(t, 0) == 0);
        assert(ws_back(t, t.len() as int) == t.len());
        assert(t.subrange(0, t.len() as int) =~= t);
    }
}

/// Index of the first non-whitespace character at or after `i`.
fn skip_ws_chars(s: &str, i: usize) -> (r: usize)
    requires
        i <= s@.len(),
    ensures
        r == ws_end(s@, i as int),
        i <= r <= s@.len(),
{
    let n = s.unicode_len();
    let mut a = i;
    while a < n && white_space(s.get_char(a))
        invariant
            n == s@.len(),
            i <= a <= n,
            ws_end(s@, i as int) == ws_end(s@, a as int),
        decreases n - a,
    {
        a += 1;
    }
    a
}

/// `str::trim_start`.
pub fn trim_start_str(s: &str) -> (r: &str)
    ensures
        r@ == trim_start(s@),
{
    let n = s.unicode_len();
    let a = skip_ws_chars(s, 0);
    s.substring_char(a, n)
}

/// `str::trim`.
pub fn trim_str(s: &str) -> (r: &str)
    ensures
        r@ == trim(s@),
{
    let n = s.unicode_len();
    let a = skip_ws_chars(s, 0);
    let mut b = n;
    while b > 0 && white_space(s.get_char(b - 1))
        invariant
            n == s@.len(),
            b <= n,
            ws_back(s@, n as int) == ws_back(s@, b as int),
        decreases b,
    {
        b -= 1;
    }
    if a < b {
        s.substring_char(a, b)
    } else {
        let e = s.substring_char(0, 0);
        proof {
            assert(e@ =~= Seq::<char>::empty());
        }
        e
    }
}

/// `char::to_ascii_lowercase`.
pub open spec fn lower_char(c: char) -> char {
    if 'A' <= c && c <= 'Z' {
        ((c as u32) + 32) as char
    } else {
        c
    }
}

/// Executable form of [`lower_char`].
pub fn ascii_lower_char(c: char) -> (r: char)
    ensures
        r == lower_char(c),
{
    if 'A' <= c && c <= 'Z' {
        let cu = c as u32;
        let u: u8 = (cu + 32) as u8;
        u as char
    } else {
        c
    }
}

/// `str::to_ascii_lowercase`, character by character.
pub open spec fn lower_chars(s: Seq<char>) -> Seq<char> {
    s.map_values(|c: char| lower_char(c))
}

/// `str::eq_ignore_ascii_case`: equal once both sides are ASCII-lower-cased.
pub fn str_eq_ignore_case(a: &str, b: &str) -> (r: bool)
    ensures
        r == (lower_chars(a@) == lower_chars(b@)),
{
    let n = a.unicode_len();
    if n != b.unicode_len() {
        proof {
            assert(lower_chars(a@).len() != lower_chars(b@).len());
        }
        return false;
    }
    let mut i: usize = 0;
    while i < n
        invariant
            n == a@.len(),
            n == b@.len(),
            i <= n,
            forall|j: int| 0 <= j < i ==> lower_char(#[trigger] a@[j]) == lower_char(b@[j]),
        decreases n - i,
    {
        if ascii_lower_char(a.get_char(i)) != ascii_lower_char(b.get_char(i)) {
            proof {
                assert(lower_chars(a@)[i as int] != lower_chars(b@)[i as int]);
            }
            return false;
        }
        i += 1;
    }
    proof {
        assert(lower_chars(a@) =~= lower_chars(b@));
    }
    true
}

/// First index `>= i` holding `c`.
pub open spec fn find_char(s: Seq<char>, c: char, i: int) -> Option<int>
    decreases s.len() - i,
{
    if i < 0 || i >= s.len() {
        None
    } else if s[i] == c {
        Some(i)
    } else {
        find_char(s, c, i + 1)
    }
}

proof fn lemma_find_char(s: Seq<char>, c: char, i: int)
    requires
        0 <= i,
    ensures
        find_char(s, c, i) matches Some(k) ==> i <= k < s.len() && s[k] == c,
    decreases s.len() - i,
{
    if i < s.len() && s[i] != c {
        lemma_find_char(s, c, i + 1);
    }
}

/// `str::split(sep)`: the pieces between the separators.
pub open spec fn split_on(s: Seq<char>, sep: char) -> Seq<Seq<char>>
    decreases s.len(),
{
    match find_char(s, sep, 0) {
        Some(k) => if 0 <= k < s.len() {
            seq![s.subrange(0, k)] + split_on(s.subrange(k + 1, s.len() as int), sep)
        } else {
            seq![s]
        },
        None => seq![s],
    }
}

/// `str::split(sep)`, collected.
pub fn split_str(s: &str, sep: char) -> (r: Vec<&str>)
    ensures
        r@.len() == split_on(s@, sep).len(),
        forall|k: int| 0 <= k < r@.len() ==> (#[trigger] r@[k])@ == split_on(s@, sep)[k],
{
    let n = s.unicode_len();
    let mut pieces: Vec<&str> = Vec::new();
    let mut start: usize = 0;
    let mut i: usize = 0;
    proof {
        assert(s@.subrange(0, n as int) =~= s@);
        assert(pieces@.map_values(|p: &str| p@) + split_on(s@, sep) =~= split_on(s@, sep));
    }
    while i < n
        invariant
            n == s@.len(),
            start <= i <= n,
            find_char(s@.subrange(start as int, n as int), sep, 0) == find_char(
                s@.subrange(start as int, n as int),
                sep,
                i - start,
            ),
            split_on(s@, sep) == pieces@.map_values(|p: &str| p@) + split_on(
                s@.subrange(start as int, n as int),
                sep,
            ),
        decreases n - i,
    {
        let c = s.get_char(i);
        if c == sep {
            let ghost sub = s@.subrange(start as int, n as int);
            let ghost before = pieces@.map_values(|p: &str| p@);
            proof {
                assert(sub[i - start] == c);
                assert(sub.subrange(0, i - start) =~= s@.subrange(start as int, i as int));
                assert(sub.subrange(i - start + 1, sub.len() as int) =~= s@.subrange(
                    i + 1,
                    n as int,
                ));
            }
            let piece = s.substring_char(start, i);
            pieces.push(piece);
            proof {
                assert(pieces@.map_values(|p: &str| p@) =~= before.push(piece@));
                assert(before + (seq![piece@] + split_on(s@.subrange(i + 1, n as int), sep))
                    =~= before.push(piece@) + split_on(s@.subrange(i + 1, n as int), sep));
            }
            start = i + 1;
        }
        i += 1;
    }
    let ghost before = pieces@.map_values(|p: &str| p@);
    let last = s.substring_char(start, n);
    pieces.push(last);
    proof {
        let sub = s@.subrange(start as int, n as int);
        assert(find_char(sub, sep, (n - start) as int) is None);
        assert(pieces@.map_values(|p: &str| p@) =~= before.push(last@));
        assert(before + seq![sub] =~= before.push(last@));
        assert forall|k: int| 0 <= k < pieces@.len() implies (#[trigger] pieces@[k])@ == split_on(
            s@,
            sep,
        )[k] by {
            assert(pieces@.map_values(|p: &str| p@)[k] == pieces@[k]@);
        }
    }
    pieces
}

// ------------------------------------------------------------------
// Unsigned integers in text
// ------------------------------------------------------------------

/// The value of an ASCII digit in base `radix` (10 or 16).
pub open spec fn digit_value(c: u8, radix: nat) -> Option<nat> {
    if 0x30u8 <= c && c <= 0x39u8 {
        Some((c - 0x30u8) as nat)
    } else if radix == 16 && 0x61u8 <= c && c <= 0x66u8 {
        Some((c - 0x61u8 + 10) as nat)
    } else if radix == 16 && 0x41u8 <= c && c <= 0x46u8 {
        Some((c - 0x41u8 + 10) as nat)
    } else {
        None
    }
}

/// Every byte of `d` is a digit in base `radix`.
pub open spec fn all_digits(d: Seq<u8>, radix: nat) -> bool {
    forall|i: int| 0 <= i < d.len() ==> (#[trigger] digit_value(d[i], radix)) is Some
}

/// The number that the digits `d` denote in base `radix`.
pub open spec fn digits_value(d: Seq<u8>, radix: nat) -> nat
    decreases d.len(),
{
    if d.len() == 0 {
        0
    } else {
        digits_value(d.drop_last(), radix) * radix + digit_value(d.last(), radix).unwrap()
    }
}

/// `u32::from_str_radix` on the bytes `s`: an optional `+`, then one digit or
/// more, whose value must fit in a `u32`.
pub open spec fn spec_parse_u32(s: Seq<u8>, radix: nat) -> Option<u32> {
    let d = if s.len() > 0 && s[0] == 0x2Bu8 { s.subrange(1, s.len() as int) } else { s };
    if d.len() > 0 && all_digits(d, radix) && digits_value(d, radix) <= u32::MAX {
        Some(digits_value(d, radix) as u32)
    } else {
        None
    }
}

/// `digits_value` grows by one digit at a time.
proof fn lemma_digits_value_step(d: Seq<u8>, k: int, radix: nat)
    requires
        0 <= k < d.len(),
    ensures
        digits_value(d.subrange(0, k + 1), radix) == digits_value(d.subrange(0, k), radix) * radix
            + digit_value(d[k], radix).unwrap(),
{
    assert(d.subrange(0, k + 1).drop_last() =~= d.subrange(0, k));
}

/// A prefix of a digit string never denotes more than the whole string.
proof fn lemma_digits_value_prefix(d: Seq<u8>, k: int, radix: nat)
    requires
        0 <= k <= d.len(),
        radix >= 1,
    ensures
        digits_value(d.subrange(0, k), radix) <= digits_value(d, radix),
    decreases d.len() - k,
{
    if k < d.len() {
        lemma_digits_value_step(d, k, radix);
        let v = digits_value(d.subrange(0, k), radix);
        assert(v <= v * radix) by (nonlinear_arith)
            requires
                radix >= 1,
        ;
        lemma_digits_value_prefix(d, k + 1, radix);
    } else {
        assert(d.subrange(0, k) =~= d);
    }
}

/// The value of one digit in base 10 or 16.
pub fn digit_of(c: u8, radix: u32) -> (r: Option<u32>)
    requires
        radix == 10 || radix == 16,
    ensures
        match r {
            Some(v) => digit_value(c, radix as nat) == Some(v as nat) && v < radix,
            None => digit_value(c, radix as nat) is None,
        },
{
    if 0x30u8 <= c && c <= 0x39u8 {
        Some((c - 0x30u8) as u32)
    } else if radix == 16 && 0x61u8 <= c && c <= 0x66u8 {
        Some((c - 0x61u8 + 10) as u32)
    } else if radix == 16 && 0x41u8 <= c && c <= 0x46u8 {
        Some((c - 0x41u8 + 10) as u32)
    } else {
        None
    }
}

/// `u32::from_str_radix(s, radix)` for base 10 or 16, on the bytes of `s`.
pub fn parse_u32_radix(s: &[u8], radix: u32) -> (r: Option<u32>)
    requires
        radix == 10 || radix == 16,
    ensures
        r == spec_parse_u32(s@, radix as nat),
{
    let start: usize = if s.len() > 0 && s[0] == 0x2Bu8 {
        1
    } else {
        0
    };
    let ghost d = if s@.len() > 0 && s@[0] == 0x2Bu8 {
        s@.subrange(1, s@.len() as int)
    } else {
        s@
    };
    proof {
        assert(d =~= s@.subrange(start as int, s@.len() as int));
    }
    if start == s.len() {
        return None;
    }
    let mut acc: u64 = 0;
    let mut i = start;
    proof {
        assert(d.subrange(0, 0) =~= Seq::<u8>::empty());
    }
    while i < s.len()
        invariant
            spec_parse_u32(s@, radix as nat) == (if d.len() > 0 && all_digits(d, radix as nat)
                && digits_value(d, radix as nat) <= u32::MAX {
                Some(digits_value(d, radix as nat) as u32)
            } else {
                None
            }),
            start <= i <= s@.len(),
            d == s@.subrange(start as int, s@.len() as int),
            radix == 10 || radix == 16,
            all_digits(d.subrange(0, i - start), radix as nat),
            acc as nat == digits_value(d.subrange(0, i - start), radix as nat),
            acc <= u32::MAX,
        decreases s.len() - i,
    {
        let ghost k = i - start;
        match digit_of(s[i], radix) {
            None => {
                proof {
                    assert(d[k] == s@[i as int]);
                    assert(!(digit_value(d[k], radix as nat) is Some));
                    assert(!all_digits(d, radix as nat));
                    assert(spec_parse_u32(s@, radix as nat) is None);
                }
                return None;
            },
            Some(v) => {
                proof {
                    assert(d[k] == s@[i as int]);
                    lemma_digits_value_step(d, k, radix as nat);
                    assert(acc * radix <= 0xFFFF_FFFFu64 * 16) by (nonlinear_arith)
                        requires
                            acc <= 0xFFFF_FFFFu64,
                            radix <= 16,
                    ;
                }
                let ghost old_acc = acc;
                acc = acc * (radix as u64) + (v as u64);
                proof {
                    assert(acc as nat == digits_value(d.subrange(0, k + 1), radix as nat));
                }
                if acc > 0xFFFF_FFFFu64 {
                    proof {
                        lemma_digits_value_prefix(d, k + 1, radix as nat);
                    }
                    return None;
                }
                proof {
                    assert forall|j: int| 0 <= j < k + 1 implies (#[trigger] digit_value(
                        d.subrange(0, k + 1)[j],
                        radix as nat,
                    )) is Some by {
                        if j < k {
                            assert(d.subrange(0, k + 1)[j] == d.subrange(0, k)[j]);
                        }
                    }
                }
                i += 1;
            },
        }
    }
    proof {
        assert(d.subrange(0, i - start) =~= d);
    }
    Some(acc as u32)
}

} // verus!
