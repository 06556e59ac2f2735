//! The tokenizer of the path `d` attribute: commands, arc flags and where
//! each number is written. Turning a number's text into a value, and the
//! geometry built from the values, are floating-point work done by the
//! caller.

use vstd::prelude::*;
use vstd::string::*;
use crate::text::{
    concat_str, decimal, decimal_string, is_alpha, is_digit, lemma_scan_until, push_char, scan_until,
};

verus! {

/// Separators between path tokens: space, tab, line feed, carriage return
/// and comma.
pub open spec fn is_path_sep(b: u8) -> bool {
    b == 0x20u8 || b == 0x09u8 || b == 0x0Au8 || b == 0x0Du8 || b == 0x2Cu8
}

/// Executable form of [`is_path_sep`].
pub fn path_sep(b: u8) -> (r: bool)
    ensures
        r == is_path_sep(b),
{
    b == 0x20u8 || b == 0x09u8 || b == 0x0Au8 || b == 0x0Du8 || b == 0x2Cu8
}

/// Executable form of [`is_number_start`].
pub fn number_start(b: u8) -> (r: bool)
    ensures
        r == is_number_start(b),
{
    b == 0x2Du8 || b == 0x2Bu8 || b == 0x2Eu8 || (0x30u8 <= b && b <= 0x39u8)
}

/// A byte that can start a number: a sign, a point or a digit.
pub open spec fn is_number_start(b: u8) -> bool {
    b == 0x2Du8 || b == 0x2Bu8 || b == 0x2Eu8 || is_digit(b)
}

/// The position after the separators that start at `p`.
pub open spec fn skip_seps(d: Seq<u8>, p: int) -> int {
    scan_until(d, p, |b: u8| !is_path_sep(b))
}

/// From `p` on: the next letter (and the position after it), or no command
/// when a number starts first or the input ends; other bytes are passed
/// over.
pub open spec fn command_scan(d: Seq<u8>, p: int) -> (Option<char>, int)
    decreases d.len() - p,
{
    if p < 0 || p >= d.len() {
        (None, p)
    } else if is_alpha(d[p]) {
        (Some(d[p] as char), p + 1)
    } else if is_number_start(d[p]) {
        (None, p)
    } else {
        command_scan(d, p + 1)
    }
}

/// The end of the number that starts at `p`: an optional sign, then digits,
/// at most one point (before any exponent) and at most one `e`/`E` with an
/// optional sign of its own.
pub open spec fn number_body_end(d: Seq<u8>, p: int, has_dot: bool, has_exp: bool) -> int
    decreases d.len() - p,
{
    if p < 0 || p >= d.len() {
        p
    } else if is_digit(d[p]) {
        number_body_end(d, p + 1, has_dot, has_exp)
    } else if d[p] == 0x2Eu8 && !has_dot && !has_exp {
        number_body_end(d, p + 1, true, has_exp)
    } else if (d[p] == 0x65u8 || d[p] == 0x45u8) && !has_exp {
        let q = if p + 1 < d.len() && (d[p + 1] == 0x2Du8 || d[p + 1] == 0x2Bu8) {
            p + 2
        } else {
            p + 1
        };
        number_body_end(d, q, has_dot, true)
    } else {
        p
    }
}

/// The end of the number text that starts at `p` (see [`number_body_end`]).
pub open spec fn number_end(d: Seq<u8>, p: int) -> int {
    let q = if p < d.len() && (d[p] == 0x2Du8 || d[p] == 0x2Bu8) {
        p + 1
    } else {
        p
    };
    number_body_end(d, q, false, false)
}

proof fn lemma_number_body_end(d: Seq<u8>, p: int, has_dot: bool, has_exp: bool)
    requires
        0 <= p <= d.len(),
    ensures
        p <= number_body_end(d, p, has_dot, has_exp) <= d.len(),
    decreases d.len() - p,
{
    if p < d.len() {
        if is_digit(d[p]) {
            lemma_number_body_end(d, p + 1, has_dot, has_exp);
        } else if d[p] == 0x2Eu8 && !has_dot && !has_exp {
            lemma_number_body_end(d, p + 1, true, has_exp);
        } else if (d[p] == 0x65u8 || d[p] == 0x45u8) && !has_exp {
            let q = if p + 1 < d.len() && (d[p + 1] == 0x2Du8 || d[p + 1] == 0x2Bu8) {
                p + 2
            } else {
                p + 1
            };
            lemma_number_body_end(d, q, has_dot, true);
        }
    }
}


/// An exponent marker, `e` or `E`.
pub open spec fn is_exp_mark(b: u8) -> bool {
    b == 0x65u8 || b == 0x45u8
}

/// Whether a digit lies in `d[i..j]`.
pub open spec fn has_digit(d: Seq<u8>, i: int, j: int) -> bool {
    exists|k: int| i <= k < j && is_digit(#[trigger] d[k])
}

/// Where the exponent of the number text `d[s..e]` begins, or `e` when it
/// has none.
pub open spec fn exponent_at(d: Seq<u8>, s: int, e: int) -> int {
    let m = scan_until(d, s, |b: u8| is_exp_mark(b));
    if m < e {
        m
    } else {
        e
    }
}

/// Whether the number text `d[s..e]`, as [`number_end`] delimits it, is a
/// float literal: a digit before the exponent, and a digit after an
/// exponent marker when there is one. (`f32::from_str` documents this
/// grammar; texts such as `-`, `.`, `1e` and `e5` fall outside it.)
pub open spec fn is_float_text(d: Seq<u8>, s: int, e: int) -> bool {
    let m = exponent_at(d, s, e);
    has_digit(d, s, m) && (m == e || has_digit(d, m + 1, e))
}

/// A number of a path command, by the byte range of its text, or an arc
/// flag.
#[derive(Clone, Copy, Debug, PartialEq, Eq, Structural)]
pub enum PathArg {
    /// The number written in bytes `start..end`.
    Number(usize, usize),
    /// An arc flag.
    Flag(bool),
}

/// Why path data was refused.
#[derive(Clone, Debug)]
pub enum PathDataError {
    /// A command, number or flag is missing or malformed; the message says
    /// which.
    Syntax(String),
    /// The number text in bytes `start..end` is not a float literal.
    InvalidNumber(usize, usize),
}

/// The mathematical form of [`PathDataError`].
pub enum SpecPathError {
    Syntax(Seq<char>),
    InvalidNumber(usize, usize),
}

impl View for PathDataError {
    type V = SpecPathError;

    open spec fn view(&self) -> SpecPathError {
        match self {
            PathDataError::Syntax(m) => SpecPathError::Syntax(m@),
            PathDataError::InvalidNumber(s, e) => SpecPathError::InvalidNumber(*s, *e),
        }
    }
}

/// A command letter with the arguments of each of its uses, in the order
/// written: a command letter may be followed by several sets of arguments.
#[derive(Clone, Debug)]
pub struct PathCommand {
    pub letter: char,
    pub uses: Vec<Vec<PathArg>>,
}

/// The mathematical form of [`PathCommand`].
pub struct SpecCommand {
    pub letter: char,
    pub uses: Seq<Seq<PathArg>>,
}

/// The views of the argument lists of a command's uses.
pub open spec fn uses_view(v: Seq<Vec<PathArg>>) -> Seq<Seq<PathArg>> {
    v.map_values(|g: Vec<PathArg>| g@)
}

impl View for PathCommand {
    type V = SpecCommand;

    open spec fn view(&self) -> SpecCommand {
        SpecCommand { letter: self.letter, uses: uses_view(self.uses@) }
    }
}

/// The views of a list of commands.
pub open spec fn commands_view(v: Seq<PathCommand>) -> Seq<SpecCommand> {
    v.map_values(|c: PathCommand| c@)
}

/// How many arguments one use of a command takes; `None` for a letter that
/// is no command. `Z` takes none and is not repeated.
pub open spec fn arity(c: char) -> Option<nat> {
    if c == 'M' || c == 'm' || c == 'L' || c == 'l' || c == 'T' || c == 't' {
        Some(2)
    } else if c == 'H' || c == 'h' || c == 'V' || c == 'v' {
        Some(1)
    } else if c == 'C' || c == 'c' {
        Some(6)
    } else if c == 'S' || c == 's' || c == 'Q' || c == 'q' {
        Some(4)
    } else if c == 'A' || c == 'a' {
        Some(7)
    } else if c == 'Z' || c == 'z' {
        Some(0)
    } else {
        None
    }
}

/// The large-arc and sweep flags of an arc are its fourth and fifth
/// arguments; every other argument is a number.
pub open spec fn is_flag_slot(c: char, i: int) -> bool {
    (c == 'A' || c == 'a') && (i == 3 || i == 4)
}

/// Reading a number after the separators from `p`: its byte range, or the
/// error; and the position afterwards.
pub open spec fn read_number(d: Seq<u8>, p: int) -> (Result<(usize, usize), SpecPathError>, int) {
    let s = skip_seps(d, p);
    let e = number_end(d, s);
    if s >= d.len() {
        (Err(SpecPathError::Syntax("Expected number, got end of input"@)), s)
    } else if e == s {
        (Err(SpecPathError::Syntax("Expected number at position "@ + decimal(s as nat))), s)
    } else if !is_float_text(d, s, e) {
        (Err(SpecPathError::InvalidNumber(s as usize, e as usize)), e)
    } else {
        (Ok((s as usize, e as usize)), e)
    }
}

/// Reading an arc flag after the separators from `p`: the flag or the
/// message, and the position afterwards.
pub open spec fn read_flag(d: Seq<u8>, p: int) -> (Result<bool, Seq<char>>, int) {
    let s = skip_seps(d, p);
    if s >= d.len() {
        (Err("Expected flag, got end of input"@), s)
    } else if d[s] == 0x30u8 {
        (Ok(false), s + 1)
    } else if d[s] == 0x31u8 {
        (Ok(true), s + 1)
    } else {
        (Err("Expected flag (0 or 1), got '"@ + seq![d[s] as char] + "'"@), s)
    }
}

/// Reading argument `i` of command `c` from `p`.
pub open spec fn read_arg(d: Seq<u8>, p: int, c: char, i: int) -> (Result<PathArg, SpecPathError>, int) {
    if is_flag_slot(c, i) {
        match read_flag(d, p) {
            (Ok(f), q) => (Ok(PathArg::Flag(f)), q),
            (Err(m), q) => (Err(SpecPathError::Syntax(m)), q),
        }
    } else {
        match read_number(d, p) {
            (Ok((s, e)), q) => (Ok(PathArg::Number(s, e)), q),
            (Err(x), q) => (Err(x), q),
        }
    }
}

/// Reading arguments `i..k` of one use of command `c` from `p`: the
/// arguments and the position after them, or the first error.
pub open spec fn read_group(d: Seq<u8>, p: int, c: char, i: int, k: int) -> Result<
    (Seq<PathArg>, int),
    SpecPathError,
>
    decreases k - i,
{
    if i >= k {
        Ok((seq![], p))
    } else {
        match read_arg(d, p, c, i) {
            (Err(x), _) => Err(x),
            (Ok(a), q) => match read_group(d, q, c, i + 1, k) {
                Err(x) => Err(x),
                Ok((rest, r)) => Ok((seq![a] + rest, r)),
            },
        }
    }
}

/// Reading the uses of command `c` from `p` while a number follows: the
/// arguments of each and the position after them, or the first error.
pub open spec fn read_groups(d: Seq<u8>, p: int, c: char, k: int) -> Result<
    (Seq<Seq<PathArg>>, int),
    SpecPathError,
>
    decreases d.len() - p,
{
    let s = skip_seps(d, p);
    if !(s < d.len() && is_number_start(d[s])) {
        Ok((seq![], s))
    } else {
        match read_group(d, s, c, 0, k) {
            Err(x) => Err(x),
            Ok((g, q)) => if p < q <= d.len() {
                match read_groups(d, q, c, k) {
                    Err(x) => Err(x),
                    Ok((rest, r)) => Ok((seq![g] + rest, r)),
                }
            } else {
                Ok((seq![g], q))
            },
        }
    }
}

/// The commands of path data from `p` on, or the first error. Reading stops
/// without error where a number stands in place of a command, and at the
/// end.
pub open spec fn path_from(d: Seq<u8>, p: int) -> Result<Seq<SpecCommand>, SpecPathError>
    decreases d.len() - p,
{
    match command_scan(d, skip_seps(d, p)) {
        (None, _) => Ok(seq![]),
        (Some(l), q) => match arity(l) {
            None => Err(SpecPathError::Syntax("Unknown path command: '"@ + seq![l] + "'"@)),
            Some(k) => {
                let g = if k == 0 {
                    Ok((Seq::<Seq<PathArg>>::empty(), q))
                } else {
                    read_groups(d, q, l, k as int)
                };
                match g {
                    Err(x) => Err(x),
                    Ok((uses, r)) => {
                        let cmd = SpecCommand { letter: l, uses };
                        if p < r <= d.len() {
                            match path_from(d, r) {
                                Err(x) => Err(x),
                                Ok(rest) => Ok(seq![cmd] + rest),
                            }
                        } else {
                            Ok(seq![cmd])
                        }
                    },
                }
            },
        },
    }
}

/// The commands of the path data `d`, or the first error.
pub open spec fn spec_parse_path(d: Seq<u8>) -> Result<Seq<SpecCommand>, SpecPathError> {
    path_from(d, 0)
}

/// Arguments `xs` put in front of an outcome.
pub open spec fn prefix_args(xs: Seq<PathArg>, r: Result<(Seq<PathArg>, int), SpecPathError>) -> Result<
    (Seq<PathArg>, int),
    SpecPathError,
> {
    match r {
        Ok((ys, q)) => Ok((xs + ys, q)),
        Err(x) => Err(x),
    }
}

/// Argument lists `xs` put in front of an outcome.
pub open spec fn prefix_uses(
    xs: Seq<Seq<PathArg>>,
    r: Result<(Seq<Seq<PathArg>>, int), SpecPathError>,
) -> Result<(Seq<Seq<PathArg>>, int), SpecPathError> {
    match r {
        Ok((ys, q)) => Ok((xs + ys, q)),
        Err(x) => Err(x),
    }
}

proof fn lemma_prefix_uses(
    xs: Seq<Seq<PathArg>>,
    ys: Seq<Seq<PathArg>>,
    r: Result<(Seq<Seq<PathArg>>, int), SpecPathError>,
)
    ensures
        prefix_uses(xs, prefix_uses(ys, r)) == prefix_uses(xs + ys, r),
        prefix_uses(Seq::empty(), r) == r,
{
    match r {
        Ok((zs, q)) => {
            assert(xs + (ys + zs) =~= (xs + ys) + zs);
            assert(Seq::<Seq<PathArg>>::empty() + zs =~= zs);
        },
        Err(_) => {},
    }
}

/// Commands `xs` put in front of an outcome.
pub open spec fn prefix_commands(xs: Seq<SpecCommand>, r: Result<Seq<SpecCommand>, SpecPathError>) -> Result<
    Seq<SpecCommand>,
    SpecPathError,
> {
    match r {
        Ok(ys) => Ok(xs + ys),
        Err(x) => Err(x),
    }
}

proof fn lemma_prefix_args(xs: Seq<PathArg>, ys: Seq<PathArg>, r: Result<(Seq<PathArg>, int), SpecPathError>)
    ensures
        prefix_args(xs, prefix_args(ys, r)) == prefix_args(xs + ys, r),
        prefix_args(Seq::empty(), r) == r,
{
    match r {
        Ok((zs, q)) => {
            assert(xs + (ys + zs) =~= (xs + ys) + zs);
            assert(Seq::<PathArg>::empty() + zs =~= zs);
        },
        Err(_) => {},
    }
}

/// The position a command scan ends at lies after where it began.
proof fn lemma_command_scan(d: Seq<u8>, p: int)
    requires
        0 <= p <= d.len(),
    ensures
        p <= command_scan(d, p).1 <= d.len(),
        command_scan(d, p).0 is Some ==> p < command_scan(d, p).1,
    decreases d.len() - p,
{
    if p < d.len() && !is_alpha(d[p]) && !is_number_start(d[p]) {
        lemma_command_scan(d, p + 1);
    }
}

/// What [`skip_seps`] returns lies between `p` and the end, on no separator.
pub proof fn lemma_skip_seps(d: Seq<u8>, p: int)
    requires
        0 <= p <= d.len(),
    ensures
        p <= skip_seps(d, p) <= d.len(),
        skip_seps(d, p) < d.len() ==> !is_path_sep(d[skip_seps(d, p)]),
{
    lemma_scan_until(d, p, |b: u8| !is_path_sep(b));
}

/// Executable form of [`number_end`].
pub fn number_text_end(d: &[u8], start: usize) -> (r: usize)
    requires
        start <= d@.len(),
    ensures
        r == number_end(d@, start as int),
        start <= r <= d@.len(),
{
    let len = d.len();
    let mut i = start;
    if i < len && (d[i] == 0x2Du8 || d[i] == 0x2Bu8) {
        i += 1;
    }
    let mut has_dot = false;
    let mut has_exp = false;
    while i < len
        invariant
            len == d@.len(),
            start <= i <= len,
            number_end(d@, start as int) == number_body_end(d@, i as int, has_dot, has_exp),
        ensures
            start <= i <= len,
            number_end(d@, start as int) == i,
        decreases len - i,
    {
        let b = d[i];
        if 0x30u8 <= b && b <= 0x39u8 {
            i += 1;
        } else if b == 0x2Eu8 && !has_dot && !has_exp {
            has_dot = true;
            i += 1;
        } else if (b == 0x65u8 || b == 0x45u8) && !has_exp {
            has_exp = true;
            i += 1;
            if i < len && (d[i] == 0x2Du8 || d[i] == 0x2Bu8) {
                i += 1;
            }
        } else {
            break;
        }
    }
    i
}

/// Whether a digit lies in `d[i..j]`.
fn digit_in(d: &[u8], i: usize, j: usize) -> (r: bool)
    requires
        i <= j <= d@.len(),
    ensures
        r == has_digit(d@, i as int, j as int),
{
    let mut k = i;
    while k < j
        invariant
            i <= k <= j,
            j <= d@.len(),
            forall|t: int| i <= t < k ==> !is_digit(#[trigger] d@[t]),
        decreases j - k,
    {
        if 0x30u8 <= d[k] && d[k] <= 0x39u8 {
            assert(is_digit(d@[k as int]));
            return true;
        }
        k += 1;
    }
    false
}

/// Executable form of [`is_float_text`].
pub fn float_text(d: &[u8], s: usize, e: usize) -> (r: bool)
    requires
        s <= e <= d@.len(),
    ensures
        r == is_float_text(d@, s as int, e as int),
{
    let mut m = s;
    while m < e && !(d[m] == 0x65u8 || d[m] == 0x45u8)
        invariant
            s <= m <= e,
            e <= d@.len(),
            scan_until(d@, s as int, |b: u8| is_exp_mark(b)) == scan_until(
                d@,
                m as int,
                |b: u8| is_exp_mark(b),
            ),
        decreases e - m,
    {
        m += 1;
    }
    proof {
        lemma_scan_until(d@, m as int, |b: u8| is_exp_mark(b));
    }
    if !digit_in(d, s, m) {
        return false;
    }
    if m == e {
        return true;
    }
    digit_in(d, m + 1, e)
}

/// Executable form of [`arity`].
pub fn command_arity(c: char) -> (r: Option<usize>)
    ensures
        match r {
            Some(k) => arity(c) == Some(k as nat),
            None => arity(c) is None,
        },
{
    if c == 'M' || c == 'm' || c == 'L' || c == 'l' || c == 'T' || c == 't' {
        Some(2)
    } else if c == 'H' || c == 'h' || c == 'V' || c == 'v' {
        Some(1)
    } else if c == 'C' || c == 'c' {
        Some(6)
    } else if c == 'S' || c == 's' || c == 'Q' || c == 'q' {
        Some(4)
    } else if c == 'A' || c == 'a' {
        Some(7)
    } else if c == 'Z' || c == 'z' {
        Some(0)
    } else {
        None
    }
}

/// Reads the tokens of a path `d` attribute.
pub struct PathTokenizer<'a> {
    data: &'a [u8],
    pos: usize,
}

impl<'a> PathTokenizer<'a> {
    #[verifier::type_invariant]
    spec fn inv(self) -> bool {
        self.pos <= self.data@.len()
    }

    /// The bytes being read.
    pub closed spec fn bytes(self) -> Seq<u8> {
        self.data@
    }

    /// The reading position.
    pub closed spec fn at(self) -> int {
        self.pos as int
    }

    /// A tokenizer at the start of `d`.
    pub fn new(d: &'a str) -> (r: Self)
        ensures
            r.bytes() == d.spec_bytes(),
            r.at() == 0,
    {
        PathTokenizer { data: d.as_bytes(), pos: 0 }
    }

    /// The reading position.
    pub fn position(&self) -> (r: usize)
        ensures
            r == self.at(),
            r <= self.bytes().len(),
    {
        proof {
            use_type_invariant(self);
        }
        self.pos
    }

    /// The next command letter, after skipping separators and any byte that
    /// is neither a letter nor the start of a number; `None` when a number
    /// comes first or the input ends (the position then stays on the
    /// number).
    pub fn next_command(&mut self) -> (r: Option<char>)
        ensures
            final(self).bytes() == old(self).bytes(),
            (r, final(self).at()) == command_scan(
                old(self).bytes(),
                skip_seps(old(self).bytes(), old(self).at()),
            ),
    {
        self.skip_whitespace_and_commas();
        proof {
            use_type_invariant(&*self);
        }
        let ghost start = self.pos as int;
        let len = self.data.len();
        while self.pos < len
            invariant
                len == self.data@.len(),
                self.pos <= len,
                self.data@ == old(self).data@,
                start == skip_seps(old(self).data@, old(self).pos as int),
                command_scan(self.data@, start) == command_scan(self.data@, self.pos as int),
            decreases len - self.pos,
        {
            let b = self.data[self.pos];
            if (0x41u8 <= b && b <= 0x5Au8) || (0x61u8 <= b && b <= 0x7Au8) {
                self.pos = self.pos + 1;
                return Some(b as char);
            }
            if number_start(b) {
                return None;
            }
            self.pos = self.pos + 1;
        }
        None
    }

    /// Whether a number follows the separators (which are skipped).
    pub fn has_number(&mut self) -> (r: bool)
        ensures
            final(self).bytes() == old(self).bytes(),
            final(self).at() == skip_seps(old(self).bytes(), old(self).at()),
            r == (final(self).at() < final(self).bytes().len() && is_number_start(
                final(self).bytes()[final(self).at()],
            )),
    {
        self.skip_whitespace_and_commas();
        proof {
            use_type_invariant(&*self);
        }
        if self.pos >= self.data.len() {
            return false;
        }
        number_start(self.data[self.pos])
    }

    /// An arc flag, `0` or `1`, after the separators.
    pub fn next_flag(&mut self) -> (r: Result<bool, String>)
        ensures
            final(self).bytes() == old(self).bytes(),
            ({
                let d = old(self).bytes();
                let p = skip_seps(d, old(self).at());
                if p >= d.len() {
                    r matches Err(m) && m@ == "Expected flag, got end of input"@ && final(self).at() == p
                } else if d[p] == 0x30u8 {
                    r == Ok::<bool, String>(false) && final(self).at() == p + 1
                } else if d[p] == 0x31u8 {
                    r == Ok::<bool, String>(true) && final(self).at() == p + 1
                } else {
                    r matches Err(m) && m@ == "Expected flag (0 or 1), got '"@ + seq![d[p] as char]
                        + "'"@ && final(self).at() == p
                }
            }),
    {
        self.skip_whitespace_and_commas();
        proof {
            use_type_invariant(&*self);
        }
        if self.pos >= self.data.len() {
            return Err(String::from_str("Expected flag, got end of input"));
        }
        let b = self.data[self.pos];
        if b == 0x30u8 {
            self.pos = self.pos + 1;
            Ok(false)
        } else if b == 0x31u8 {
            self.pos = self.pos + 1;
            Ok(true)
        } else {
            let mut m = String::from_str("Expected flag (0 or 1), got '");
            let ghost m0 = m@;
            push_char(&mut m, b as char);
            m.append("'");
            proof {
                assert(m0.push(b as char) + "'"@ =~= m0 + seq![b as char] + "'"@);
            }
            Err(m)
        }
    }


    /// The next number after the separators: the byte range of its text;
    /// the position moves past it (see [`read_number`]).
    pub fn next_number(&mut self) -> (r: Result<(usize, usize), PathDataError>)
        ensures
            final(self).bytes() == old(self).bytes(),
            (match r {
                Ok(x) => Ok::<(usize, usize), SpecPathError>(x),
                Err(x) => Err(x@),
            }, final(self).at()) == read_number(old(self).bytes(), old(self).at()),
            final(self).at() >= old(self).at(),
            r is Ok ==> final(self).at() > old(self).at(),
    {
        self.skip_whitespace_and_commas();
        proof {
            use_type_invariant(&*self);
            lemma_skip_seps(old(self).data@, old(self).pos as int);
        }
        let len = self.data.len();
        if self.pos >= len {
            return Err(PathDataError::Syntax(String::from_str("Expected number, got end of input")));
        }
        let start = self.pos;
        let i = number_text_end(self.data, start);
        if i == start {
            let d = decimal_string(start as u64);
            return Err(PathDataError::Syntax(concat_str("Expected number at position ", d.as_str())));
        }
        self.pos = i;
        if !float_text(self.data, start, i) {
            return Err(PathDataError::InvalidNumber(start, i));
        }
        Ok((start, i))
    }

    /// Argument `i` of command `c`: a flag in the flag slots of an arc, a
    /// number elsewhere (see [`read_arg`]).
    fn next_arg(&mut self, c: char, i: usize) -> (r: Result<PathArg, PathDataError>)
        ensures
            final(self).bytes() == old(self).bytes(),
            (match r {
                Ok(a) => Ok::<PathArg, SpecPathError>(a),
                Err(x) => Err(x@),
            }, final(self).at()) == read_arg(old(self).bytes(), old(self).at(), c, i as int),
            final(self).at() >= old(self).at(),
            r is Ok ==> final(self).at() > old(self).at(),
    {
        proof {
            use_type_invariant(&*self);
            lemma_skip_seps(self.data@, self.pos as int);
        }
        if (c == 'A' || c == 'a') && (i == 3 || i == 4) {
            match self.next_flag() {
                Ok(f) => Ok(PathArg::Flag(f)),
                Err(m) => Err(PathDataError::Syntax(m)),
            }
        } else {
            match self.next_number() {
                Ok((s, e)) => Ok(PathArg::Number(s, e)),
                Err(x) => Err(x),
            }
        }
    }

    /// The `k` arguments of one use of command `c` (see [`read_group`]).
    fn next_group(&mut self, c: char, k: usize) -> (r: Result<Vec<PathArg>, PathDataError>)
        ensures
            final(self).bytes() == old(self).bytes(),
            match r {
                Ok(v) => read_group(old(self).bytes(), old(self).at(), c, 0, k as int) == Ok::<
                    (Seq<PathArg>, int),
                    SpecPathError,
                >((v@, final(self).at())),
                Err(x) => read_group(old(self).bytes(), old(self).at(), c, 0, k as int) == Err::<
                    (Seq<PathArg>, int),
                    SpecPathError,
                >(x@),
            },
            final(self).at() >= old(self).at(),
            (r is Ok && k > 0) ==> final(self).at() > old(self).at(),
    {
        let ghost d = self.bytes();
        let ghost p0 = self.at();
        let mut g: Vec<PathArg> = Vec::new();
        let mut i: usize = 0;
        proof {
            lemma_prefix_args(g@, g@, read_group(d, p0, c, 0, k as int));
        }
        while i < k
            invariant
                i <= k,
                d == old(self).bytes(),
                p0 == old(self).at(),
                self.bytes() == d,
                self.at() >= p0,
                i > 0 ==> self.at() > p0,
                read_group(d, p0, c, 0, k as int) == prefix_args(
                    g@,
                    read_group(d, self.at(), c, i as int, k as int),
                ),
            decreases k - i,
        {
            let ghost p = self.at();
            match self.next_arg(c, i) {
                Ok(a) => {
                    proof {
                        lemma_prefix_args(g@, seq![a], read_group(d, self.at(), c, i + 1, k as int));
                        assert(g@.push(a) =~= g@ + seq![a]);
                    }
                    g.push(a);
                },
                Err(x) => {
                    return Err(x);
                },
            }
            i += 1;
        }
        proof {
            assert(g@ + Seq::<PathArg>::empty() =~= g@);
        }
        Ok(g)
    }

    /// The arguments of the uses of command `c` while a number follows, `k`
    /// to a use (see [`read_groups`]).
    fn next_groups(&mut self, c: char, k: usize) -> (r: Result<Vec<Vec<PathArg>>, PathDataError>)
        requires
            k > 0,
        ensures
            final(self).bytes() == old(self).bytes(),
            match r {
                Ok(v) => read_groups(old(self).bytes(), old(self).at(), c, k as int) == Ok::<
                    (Seq<Seq<PathArg>>, int),
                    SpecPathError,
                >((uses_view(v@), final(self).at())),
                Err(x) => read_groups(old(self).bytes(), old(self).at(), c, k as int) == Err::<
                    (Seq<Seq<PathArg>>, int),
                    SpecPathError,
                >(x@),
            },
            final(self).at() >= old(self).at(),
    {
        let ghost d = self.bytes();
        let ghost p0 = self.at();
        let mut uses: Vec<Vec<PathArg>> = Vec::new();
        proof {
            assert(uses_view(uses@) =~= Seq::<Seq<PathArg>>::empty());
            lemma_prefix_uses(uses_view(uses@), uses_view(uses@), read_groups(d, p0, c, k as int));
        }
        loop
            invariant
                k > 0,
                d == old(self).bytes(),
                p0 == old(self).at(),
                self.bytes() == d,
                self.at() >= p0,
                read_groups(d, p0, c, k as int) == prefix_uses(
                    uses_view(uses@),
                    read_groups(d, self.at(), c, k as int),
                ),
            decreases d.len() - self.at(),
        {
            let ghost p = self.at();
            proof {
                use_type_invariant(&*self);
                lemma_skip_seps(d, p);
            }
            if !self.has_number() {
                proof {
                    assert(uses_view(uses@) + Seq::<Seq<PathArg>>::empty() =~= uses_view(uses@));
                }
                return Ok(uses);
            }
            match self.next_group(c, k) {
                Ok(g) => {
                    proof {
                        use_type_invariant(&*self);
                        lemma_prefix_uses(
                            uses_view(uses@),
                            seq![g@],
                            read_groups(d, self.at(), c, k as int),
                        );
                        assert(uses_view(uses@.push(g)) =~= uses_view(uses@) + seq![g@]);
                    }
                    uses.push(g);
                },
                Err(x) => {
                    return Err(x);
                },
            }
        }
    }

    /// Skips spaces, tabs, line breaks and commas.
    pub fn skip_whitespace_and_commas(&mut self)
        ensures
            final(self).bytes() == old(self).bytes(),
            final(self).at() == skip_seps(old(self).bytes(), old(self).at()),
    {
        proof {
            use_type_invariant(&*self);
        }
        let len = self.data.len();
        while self.pos < len && path_sep(self.data[self.pos])
            invariant
                len == self.data@.len(),
                self.pos <= len,
                self.data@ == old(self).data@,
                skip_seps(old(self).data@, old(self).pos as int) == skip_seps(
                    self.data@,
                    self.pos as int,
                ),
            decreases len - self.pos,
        {
            self.pos = self.pos + 1;
        }
    }
}


/// Reads path data into its commands: each command letter with the numbers
/// (by the byte ranges of their texts) and arc flags of all its uses, or the
/// first error. A command letter must be one of `MLHVCSQTAZ` in either
/// case. Reading stops without error at the end, and where a number stands
/// in place of a command.
pub fn parse_path_commands(d: &str) -> (r: Result<Vec<PathCommand>, PathDataError>)
    ensures
        match r {
            Ok(v) => spec_parse_path(d.spec_bytes()) == Ok::<Seq<SpecCommand>, SpecPathError>(
                commands_view(v@),
            ),
            Err(x) => spec_parse_path(d.spec_bytes()) == Err::<Seq<SpecCommand>, SpecPathError>(x@),
        },
{
    let mut t = PathTokenizer::new(d);
    let ghost b = d.spec_bytes();
    let mut out: Vec<PathCommand> = Vec::new();
    proof {
        assert(commands_view(out@) + Seq::<SpecCommand>::empty() =~= Seq::<SpecCommand>::empty());
        match path_from(b, 0) {
            Ok(ys) => {
                assert(commands_view(out@) + ys =~= ys);
            },
            Err(_) => {},
        }
    }
    loop
        invariant
            b == d.spec_bytes(),
            t.bytes() == b,
            0 <= t.at() <= b.len(),
            spec_parse_path(b) == prefix_commands(commands_view(out@), path_from(b, t.at())),
        decreases b.len() - t.at(),
    {
        let ghost p = t.at();
        proof {
            lemma_skip_seps(b, p);
            lemma_command_scan(b, skip_seps(b, p));
        }
        match t.next_command() {
            None => {
                proof {
                    assert(commands_view(out@) + Seq::<SpecCommand>::empty() =~= commands_view(out@));
                }
                return Ok(out);
            },
            Some(l) => {
                let ghost q = t.at();
                match command_arity(l) {
                    None => {
                        let mut m = String::from_str("Unknown path command: '");
                        let ghost m0 = m@;
                        push_char(&mut m, l);
                        m.append("'");
                        proof {
                            assert(m0.push(l) + "'"@ =~= m0 + seq![l] + "'"@);
                        }
                        return Err(PathDataError::Syntax(m));
                    },
                    Some(k) => {
                        let uses = if k == 0 {
                            Vec::new()
                        } else {
                            match t.next_groups(l, k) {
                                Ok(a) => a,
                                Err(x) => {
                                    return Err(x);
                                },
                            }
                        };
                        proof {
                            use_type_invariant(&t);
                            assert(uses_view(uses@) =~= Seq::<Seq<PathArg>>::empty() || k > 0);
                        }
                        let cmd = PathCommand { letter: l, uses };
                        let ghost sc = cmd@;
                        proof {
                            assert(commands_view(out@.push(cmd)) =~= commands_view(out@) + seq![sc]);
                            match path_from(b, t.at()) {
                                Ok(ys) => {
                                    assert(commands_view(out@) + (seq![sc] + ys) =~= (
                                    commands_view(out@) + seq![sc]) + ys);
                                },
                                Err(_) => {},
                            }
                        }
                        out.push(cmd);
                    },
                }
            },
        }
    }
}


// ------------------------------------------------------------------
// What every parsed command holds
// ------------------------------------------------------------------

/// Argument `i` of a use of command `c`, as the grammar makes it: a flag in
/// an arc's flag slots, elsewhere a number whose text in `d` is a float
/// literal.
pub open spec fn arg_fits(d: Seq<u8>, c: char, i: int, a: PathArg) -> bool {
    if is_flag_slot(c, i) {
        a is Flag
    } else {
        a matches PathArg::Number(s, e) && s < e <= d.len() && is_float_text(d, s as int, e as int)
    }
}

/// One use of command `c`: exactly `k` arguments, each as [`arg_fits`]
/// says.
pub open spec fn use_fits(d: Seq<u8>, c: char, k: int, g: Seq<PathArg>) -> bool {
    g.len() == k && forall|i: int| 0 <= i < k ==> arg_fits(d, c, i, #[trigger] g[i])
}

/// A command as the grammar makes it: a known letter, no arguments for
/// `Z`, and whole uses otherwise.
pub open spec fn command_fits(d: Seq<u8>, cmd: SpecCommand) -> bool {
    match arity(cmd.letter) {
        None => false,
        Some(k) => (k == 0 ==> cmd.uses.len() == 0) && forall|u: int|
            0 <= u < cmd.uses.len() ==> use_fits(d, cmd.letter, k as int, #[trigger] cmd.uses[u]),
    }
}

proof fn lemma_read_arg(d: Seq<u8>, p: int, c: char, i: int)
    requires
        0 <= p <= d.len(),
        d.len() <= usize::MAX,
    ensures
        p <= read_arg(d, p, c, i).1 <= d.len(),
        read_arg(d, p, c, i).0 matches Ok(a) ==> arg_fits(d, c, i, a),
{
    lemma_skip_seps(d, p);
    let s = skip_seps(d, p);
    lemma_number_body_end(
        d,
        if s < d.len() && (d[s] == 0x2Du8 || d[s] == 0x2Bu8) {
            s + 1
        } else {
            s
        },
        false,
        false,
    );
}

proof fn lemma_read_group(d: Seq<u8>, p: int, c: char, i: int, k: int)
    requires
        0 <= p <= d.len(),
        d.len() <= usize::MAX,
        0 <= i <= k,
    ensures
        read_group(d, p, c, i, k) matches Ok((g, q)) ==> p <= q <= d.len() && g.len() == k - i
            && forall|j: int| 0 <= j < g.len() ==> arg_fits(d, c, i + j, #[trigger] g[j]),
    decreases k - i,
{
    if i < k {
        lemma_read_arg(d, p, c, i);
        let (a, q) = read_arg(d, p, c, i);
        lemma_read_group(d, q, c, i + 1, k);
        if let Ok(x) = a {
            if let Ok((rest, r)) = read_group(d, q, c, i + 1, k) {
                let g = seq![x] + rest;
                assert forall|j: int| 0 <= j < g.len() implies arg_fits(d, c, i + j, #[trigger] g[j]) by {
                    if j > 0 {
                        assert(g[j] == rest[j - 1]);
                    }
                }
            }
        }
    }
}

proof fn lemma_read_groups(d: Seq<u8>, p: int, c: char, k: int)
    requires
        0 <= p <= d.len(),
        d.len() <= usize::MAX,
        0 < k,
    ensures
        read_groups(d, p, c, k) matches Ok((uses, r)) ==> p <= r <= d.len() && forall|u: int|
            0 <= u < uses.len() ==> use_fits(d, c, k, #[trigger] uses[u]),
    decreases d.len() - p,
{
    lemma_skip_seps(d, p);
    let s = skip_seps(d, p);
    if s < d.len() && is_number_start(d[s]) {
        lemma_read_group(d, s, c, 0, k);
        if let Ok((g, q)) = read_group(d, s, c, 0, k) {
            assert(use_fits(d, c, k, g)) by {
                assert forall|i: int| 0 <= i < k implies arg_fits(d, c, i, #[trigger] g[i]) by {
                    assert(arg_fits(d, c, 0 + i, g[i]));
                }
            }
            if p < q <= d.len() {
                lemma_read_groups(d, q, c, k);
                if let Ok((rest, r)) = read_groups(d, q, c, k) {
                    let uses = seq![g] + rest;
                    assert forall|u: int| 0 <= u < uses.len() implies use_fits(
                        d,
                        c,
                        k,
                        #[trigger] uses[u],
                    ) by {
                        if u > 0 {
                            assert(uses[u] == rest[u - 1]);
                        }
                    }
                }
            }
        }
    }
}

proof fn lemma_path_from(d: Seq<u8>, p: int)
    requires
        0 <= p <= d.len(),
        d.len() <= usize::MAX,
    ensures
        path_from(d, p) matches Ok(cmds) ==> forall|j: int|
            0 <= j < cmds.len() ==> command_fits(d, #[trigger] cmds[j]),
    decreases d.len() - p,
{
    lemma_skip_seps(d, p);
    lemma_command_scan(d, skip_seps(d, p));
    if let (Some(l), q) = command_scan(d, skip_seps(d, p)) {
        if let Some(k) = arity(l) {
            if k > 0 {
                lemma_read_groups(d, q, l, k as int);
            }
            let g = if k == 0 {
                Ok((Seq::<Seq<PathArg>>::empty(), q))
            } else {
                read_groups(d, q, l, k as int)
            };
            if let Ok((uses, r)) = g {
                let cmd = SpecCommand { letter: l, uses };
                assert(command_fits(d, cmd));
                if p < r <= d.len() {
                    lemma_path_from(d, r);
                    if let Ok(rest) = path_from(d, r) {
                        let cmds = seq![cmd] + rest;
                        assert forall|j: int| 0 <= j < cmds.len() implies command_fits(
                            d,
                            #[trigger] cmds[j],
                        ) by {
                            if j > 0 {
                                assert(cmds[j] == rest[j - 1]);
                            }
                        }
                    }
                }
            }
        }
    }
}

/// Every command that reading path data gives back is one of the ten
/// commands in either case, `Z` without arguments and every other command
/// with whole uses: two numbers to a move, line, or smooth quadratic, one
/// to a horizontal or vertical line, six to a cubic, four to a smooth cubic
/// or quadratic, and seven to an arc, whose fourth and fifth are flags;
/// every number's text is a float literal.
pub proof fn parsed_commands_fit(d: Seq<u8>)
    requires
        d.len() <= usize::MAX,
    ensures
        spec_parse_path(d) matches Ok(cmds) ==> forall|j: int|
            0 <= j < cmds.len() ==> command_fits(d, #[trigger] cmds[j]),
{
    lemma_path_from(d, 0);
}


/// The twenty command letters are exactly `M L H V C S Q T A Z` in either
/// case; every other character is no command.
pub proof fn path_command_letters(c: char)
    ensures
        arity(c) is Some <==> (c == 'M' || c == 'm' || c == 'L' || c == 'l' || c == 'H' || c == 'h'
            || c == 'V' || c == 'v' || c == 'C' || c == 'c' || c == 'S' || c == 's' || c == 'Q'
            || c == 'q' || c == 'T' || c == 't' || c == 'A' || c == 'a' || c == 'Z' || c == 'z'),
{
}

/// How many arguments each use of a parsed command has: one for a
/// horizontal or vertical line, two for a move, line or smooth quadratic,
/// four for a smooth cubic or quadratic, six for a cubic and seven for an
/// arc; a close has no uses.
pub proof fn command_use_sizes(d: Seq<u8>)
    requires
        d.len() <= usize::MAX,
    ensures
        spec_parse_path(d) matches Ok(cmds) ==> forall|j: int, u: int|
            0 <= j < cmds.len() && 0 <= u < cmds[j].uses.len() ==> {
                let l = cmds[j].letter;
                let n = (#[trigger] cmds[j].uses[u]).len();
                &&& (l == 'H' || l == 'h' || l == 'V' || l == 'v') ==> n == 1
                &&& (l == 'M' || l == 'm' || l == 'L' || l == 'l' || l == 'T' || l == 't') ==> n == 2
                &&& (l == 'S' || l == 's' || l == 'Q' || l == 'q') ==> n == 4
                &&& (l == 'C' || l == 'c') ==> n == 6
                &&& (l == 'A' || l == 'a') ==> n == 7
                &&& l != 'Z' && l != 'z'
            },
{
    parsed_commands_fit(d);
    if let Ok(cmds) = spec_parse_path(d) {
        assert forall|j: int, u: int| 0 <= j < cmds.len() && 0 <= u < cmds[j].uses.len() implies {
            let l = cmds[j].letter;
            let n = (#[trigger] cmds[j].uses[u]).len();
            &&& (l == 'H' || l == 'h' || l == 'V' || l == 'v') ==> n == 1
            &&& (l == 'M' || l == 'm' || l == 'L' || l == 'l' || l == 'T' || l == 't') ==> n == 2
            &&& (l == 'S' || l == 's' || l == 'Q' || l == 'q') ==> n == 4
            &&& (l == 'C' || l == 'c') ==> n == 6
            &&& (l == 'A' || l == 'a') ==> n == 7
            &&& l != 'Z' && l != 'z'
        } by {
            assert(command_fits(d, cmds[j]));
            assert(use_fits(d, cmds[j].letter, arity(cmds[j].letter)->0 as int, cmds[j].uses[u]));
        }
    }
}

} // verus!
