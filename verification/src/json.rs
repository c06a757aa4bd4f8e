//! A verified parser for the JSON shapes the client consumes.
//!
//! The grammar is stated by the `spec_` functions of this module and the
//! executable parsers are proved to return exactly what those functions
//! describe. Two top-level shapes exist: an array of non-negative integers
//! (the top-stories list) and an object holding an item record. Unknown
//! members of the item object are skipped leniently: their raw text is
//! scanned for the closing delimiter, respecting strings and nesting, and
//! is not otherwise validated.

use vstd::prelude::*;

verus! {

/// JSON whitespace: space, tab, line feed, carriage return.
pub open spec fn is_json_ws(c: char) -> bool {
    c == ' ' || c == '\t' || c == '\n' || c == '\r'
}

/// A decimal digit.
pub open spec fn is_digit(c: char) -> bool {
    48 <= c as u32 && c as u32 <= 57
}

/// The numeric value of a decimal digit character.
pub open spec fn digit_val(c: char) -> nat
    recommends
        is_digit(c),
{
    (c as u32 - 48) as nat
}

/// The character for a decimal digit value.
pub open spec fn spec_digit_char(d: nat) -> char
    recommends
        d < 10,
{
    if d == 0 {
        '0'
    } else if d == 1 {
        '1'
    } else if d == 2 {
        '2'
    } else if d == 3 {
        '3'
    } else if d == 4 {
        '4'
    } else if d == 5 {
        '5'
    } else if d == 6 {
        '6'
    } else if d == 7 {
        '7'
    } else if d == 8 {
        '8'
    } else {
        '9'
    }
}

/// The usual decimal rendering of a non-negative integer: no sign, no
/// leading zero except for the number zero itself.
pub open spec fn spec_u64_digits(n: nat) -> Seq<char>
    decreases n,
{
    if n < 10 {
        seq![spec_digit_char(n)]
    } else {
        spec_u64_digits(n / 10) + seq![spec_digit_char(n % 10)]
    }
}

/// The first index at or after `i` that does not hold JSON whitespace.
pub open spec fn spec_skip_ws(v: Seq<char>, i: int) -> int
    decreases v.len() - i,
{
    if 0 <= i < v.len() && is_json_ws(v[i]) {
        spec_skip_ws(v, i + 1)
    } else {
        i
    }
}

pub proof fn lemma_skip_ws_bounds(v: Seq<char>, i: int)
    ensures
        0 <= i <= v.len() ==> i <= spec_skip_ws(v, i) <= v.len(),
        !(0 <= i <= v.len()) ==> spec_skip_ws(v, i) == i,
    decreases v.len() - i,
{
    if 0 <= i < v.len() && is_json_ws(v[i]) {
        lemma_skip_ws_bounds(v, i + 1);
    }
}

/// Reads a maximal run of decimal digits starting at `i`, folding them onto
/// `acc`; yields the accumulated value and the index after the run.
pub open spec fn spec_parse_digits(v: Seq<char>, i: int, acc: nat) -> (nat, int)
    decreases v.len() - i,
{
    if 0 <= i < v.len() && is_digit(v[i]) {
        spec_parse_digits(v, i + 1, acc * 10 + digit_val(v[i]))
    } else {
        (acc, i)
    }
}

pub proof fn lemma_parse_digits_bounds(v: Seq<char>, i: int, acc: nat)
    requires
        0 <= i <= v.len(),
    ensures
        i <= spec_parse_digits(v, i, acc).1 <= v.len(),
    decreases v.len() - i,
{
    if i < v.len() && is_digit(v[i]) {
        lemma_parse_digits_bounds(v, i + 1, acc * 10 + digit_val(v[i]));
    }
}

pub proof fn lemma_parse_digits_ge_acc(v: Seq<char>, i: int, acc: nat)
    ensures
        spec_parse_digits(v, i, acc).0 >= acc,
    decreases v.len() - i,
{
    if 0 <= i < v.len() && is_digit(v[i]) {
        lemma_parse_digits_ge_acc(v, i + 1, acc * 10 + digit_val(v[i]));
    }
}

/// A JSON non-negative integer that fits in a `u64`: a digit run without a
/// superfluous leading zero, rejected when its value exceeds `u64::MAX`.
pub open spec fn spec_parse_u64(v: Seq<char>, i: int) -> Option<(u64, int)> {
    if !(0 <= i < v.len() && is_digit(v[i])) {
        None
    } else if v[i] == '0' {
        if i + 1 < v.len() && is_digit(v[i + 1]) {
            None
        } else {
            Some((0u64, i + 1))
        }
    } else {
        let (n, j) = spec_parse_digits(v, i, 0);
        if n <= u64::MAX {
            Some((n as u64, j))
        } else {
            None
        }
    }
}

pub proof fn lemma_parse_u64_bounds(v: Seq<char>, i: int)
    ensures
        spec_parse_u64(v, i) matches Some(r) ==> 0 <= i && i < r.1 <= v.len(),
{
    if spec_parse_u64(v, i) is Some {
        if v[i] != '0' {
            lemma_parse_digits_bounds(v, i + 1, digit_val(v[i]));
        }
    }
}

/// The character for a decimal digit value.
pub(crate) fn digit_char(d: u64) -> (c: char)
    requires
        d < 10,
    ensures
        c == spec_digit_char(d as nat),
{
    if d == 0 {
        '0'
    } else if d == 1 {
        '1'
    } else if d == 2 {
        '2'
    } else if d == 3 {
        '3'
    } else if d == 4 {
        '4'
    } else if d == 5 {
        '5'
    } else if d == 6 {
        '6'
    } else if d == 7 {
        '7'
    } else if d == 8 {
        '8'
    } else {
        '9'
    }
}

/// Appends the decimal rendering of `n` to `out`.
pub(crate) fn push_decimal(n: u64, out: &mut Vec<char>)
    ensures
        final(out)@ == old(out)@ + spec_u64_digits(n as nat),
    decreases n,
{
    if n < 10 {
        out.push(digit_char(n));
    } else {
        push_decimal(n / 10, out);
        out.push(digit_char(n % 10));
    }
}

/// True when the character is a decimal digit.
pub(crate) fn digit_exec(c: char) -> (r: bool)
    ensures
        r == is_digit(c),
{
    let u = c as u32;
    48 <= u && u <= 57
}

/// The first index at or after `i` that does not hold JSON whitespace.
pub(crate) fn skip_ws(s: &str, i: usize) -> (r: usize)
    requires
        i <= s@.len(),
    ensures
        r == spec_skip_ws(s@, i as int),
        i <= r <= s@.len(),
{
    let n: usize = s.unicode_len();
    let mut j: usize = i;
    loop
        invariant
            i <= j <= n,
            n == s@.len(),
            spec_skip_ws(s@, i as int) == spec_skip_ws(s@, j as int),
        decreases n - j,
    {
        if j >= n {
            return j;
        }
        let c = s.get_char(j);
        if c == ' ' || c == '\t' || c == '\n' || c == '\r' {
            j = j + 1;
        } else {
            return j;
        }
    }
}

/// Parses a JSON non-negative integer fitting in a `u64`.
pub(crate) fn parse_u64(s: &str, i: usize) -> (r: Option<(u64, usize)>)
    requires
        i <= s@.len(),
    ensures
        r matches Some(p) ==> spec_parse_u64(s@, i as int) == Some((p.0, p.1 as int)) && i < p.1
            <= s@.len(),
        r is None ==> spec_parse_u64(s@, i as int) is None,
{
    let n: usize = s.unicode_len();
    if i >= n {
        return None;
    }
    let c0 = s.get_char(i);
    if !digit_exec(c0) {
        return None;
    }
    if c0 == '0' {
        if i + 1 < n && digit_exec(s.get_char(i + 1)) {
            return None;
        }
        return Some((0u64, i + 1));
    }
    let mut acc: u64 = 0;
    let mut j: usize = i;
    loop
        invariant
            i <= j <= n,
            n == s@.len(),
            i < n,
            is_digit(s@[i as int]),
            s@[i as int] != '0',
            spec_parse_digits(s@, i as int, 0) == spec_parse_digits(s@, j as int, acc as nat),
        ensures
            i <= j <= n,
            spec_parse_digits(s@, i as int, 0) == (acc as nat, j as int),
        decreases n - j,
    {
        if j >= n {
            proof {
                assert(spec_parse_digits(s@, j as int, acc as nat) == (acc as nat, j as int));
            }
            break;
        }
        let c = s.get_char(j);
        if !digit_exec(c) {
            proof {
                assert(spec_parse_digits(s@, j as int, acc as nat) == (acc as nat, j as int));
            }
            break;
        }
        let d: u64 = ((c as u32) - 48) as u64;
        proof {
            assert(spec_parse_digits(s@, j as int, acc as nat) == spec_parse_digits(
                s@,
                j as int + 1,
                acc as nat * 10 + digit_val(s@[j as int]),
            ));
            assert(digit_val(s@[j as int]) == d as nat);
        }
        if acc > (u64::MAX - d) / 10 {
            proof {
                lemma_parse_digits_ge_acc(s@, j as int + 1, acc as nat * 10 + d as nat);
                assert(spec_parse_digits(s@, i as int, 0).0 > u64::MAX);
            }
            return None;
        }
        proof {
            assert(acc * 10 + d <= u64::MAX);
        }
        acc = acc * 10 + d;
        j = j + 1;
    }
    proof {
        assert(spec_parse_digits(s@, i as int, 0) == spec_parse_digits(
            s@,
            i as int + 1,
            digit_val(s@[i as int]),
        ));
        lemma_parse_digits_bounds(s@, i as int + 1, digit_val(s@[i as int]));
    }
    Some((acc, j))
}

/// The decoded character for a single-character JSON escape.
pub open spec fn spec_escape_char(c: char) -> Option<char> {
    if c == '"' {
        Some('"')
    } else if c == '\\' {
        Some('\\')
    } else if c == '/' {
        Some('/')
    } else if c == 'b' {
        Some('\u{0008}')
    } else if c == 'f' {
        Some('\u{000C}')
    } else if c == 'n' {
        Some('\n')
    } else if c == 'r' {
        Some('\r')
    } else if c == 't' {
        Some('\t')
    } else {
        None
    }
}

/// A hexadecimal digit, of either case.
pub open spec fn is_hex_digit(c: char) -> bool {
    (48 <= c as u32 && c as u32 <= 57) || (97 <= c as u32 && c as u32 <= 102) || (65 <= c as u32
        && c as u32 <= 70)
}

/// The numeric value of a hexadecimal digit character.
pub open spec fn hex_val(c: char) -> nat
    recommends
        is_hex_digit(c),
{
    if 48 <= c as u32 && c as u32 <= 57 {
        (c as u32 - 48) as nat
    } else if 97 <= c as u32 && c as u32 <= 102 {
        (c as u32 - 87) as nat
    } else {
        (c as u32 - 55) as nat
    }
}

/// Four hexadecimal digits starting at `i`, read as one number.
pub open spec fn spec_hex4(v: Seq<char>, i: int) -> Option<u32> {
    if 0 <= i && i + 4 <= v.len() && is_hex_digit(v[i]) && is_hex_digit(v[i + 1]) && is_hex_digit(
        v[i + 2],
    ) && is_hex_digit(v[i + 3]) {
        Some(
            (hex_val(v[i]) * 0x1000 + hex_val(v[i + 1]) * 0x100 + hex_val(v[i + 2]) * 0x10
                + hex_val(v[i + 3])) as u32,
        )
    } else {
        None
    }
}

/// A Unicode scalar value: every code a `char` can hold, which is every
/// code point outside the surrogate range.
pub open spec fn is_scalar_value(code: u32) -> bool {
    code < 0xD800 || (0xE000 <= code && code <= 0x10FFFF)
}

/// Relies on char::from_u32: it returns `Some` exactly for Unicode scalar
/// values (no surrogates, nothing past the last code point), and the
/// character it returns has exactly the given code.
pub assume_specification[ char::from_u32 ](code: u32) -> (r: Option<char>)
    ensures
        r == (if is_scalar_value(code) {
            Some(code as char)
        } else {
            None::<char>
        }),
;

/// The body of a JSON string, read from just after the opening quote:
/// yields the decoded characters and the index after the closing quote.
///
/// Escapes follow the JSON grammar: the single-character escapes, and
/// `\u` followed by four hexadecimal digits, where a high surrogate must be
/// followed by a `\u`-escaped low surrogate and the pair decodes to one
/// character. Unescaped control characters are rejected.
pub open spec fn spec_parse_string_rest(v: Seq<char>, i: int) -> Option<(Seq<char>, int)>
    decreases v.len() - i,
{
    if !(0 <= i < v.len()) {
        None
    } else {
        let c = v[i];
        if c == '"' {
            Some((Seq::<char>::empty(), i + 1))
        } else if c == '\\' {
            if i + 1 >= v.len() {
                None
            } else {
                let e = v[i + 1];
                if e == 'u' {
                    match spec_hex4(v, i + 2) {
                        None => None,
                        Some(code) => {
                            if 0xD800 <= code && code < 0xDC00 {
                                if i + 8 <= v.len() && v[i + 6] == '\\' && v[i + 7] == 'u' {
                                    match spec_hex4(v, i + 8) {
                                        None => None,
                                        Some(lo) => {
                                            if 0xDC00 <= lo && lo < 0xE000 {
                                                let ch = ((0x10000 + (code - 0xD800) * 0x400 + (lo
                                                    - 0xDC00)) as u32) as char;
                                                spec_prepend(
                                                    seq![ch],
                                                    spec_parse_string_rest(v, i + 12),
                                                )
                                            } else {
                                                None
                                            }
                                        },
                                    }
                                } else {
                                    None
                                }
                            } else if 0xDC00 <= code && code < 0xE000 {
                                None
                            } else {
                                spec_prepend(
                                    seq![(code as char)],
                                    spec_parse_string_rest(v, i + 6),
                                )
                            }
                        },
                    }
                } else {
                    match spec_escape_char(e) {
                        None => None,
                        Some(ch) => spec_prepend(seq![ch], spec_parse_string_rest(v, i + 2)),
                    }
                }
            }
        } else if (c as u32) < 0x20 {
            None
        } else {
            spec_prepend(seq![c], spec_parse_string_rest(v, i + 1))
        }
    }
}

/// Prepends already-parsed elements onto a parse result.
pub open spec fn spec_prepend<T>(pre: Seq<T>, r: Option<(Seq<T>, int)>) -> Option<(Seq<T>, int)> {
    match r {
        None => None,
        Some((s, j)) => Some((pre + s, j)),
    }
}

pub proof fn lemma_prepend_assoc<T>(a: Seq<T>, b: Seq<T>, r: Option<(Seq<T>, int)>)
    ensures
        spec_prepend(a, spec_prepend(b, r)) == spec_prepend(a + b, r),
{
    match r {
        None => {},
        Some((s, j)) => {
            assert(a + (b + s) =~= (a + b) + s);
        },
    }
}

pub proof fn lemma_parse_string_rest_bounds(v: Seq<char>, i: int)
    ensures
        spec_parse_string_rest(v, i) matches Some(r) ==> 0 <= i && i < r.1 <= v.len(),
    decreases v.len() - i,
{
    if 0 <= i < v.len() {
        lemma_parse_string_rest_bounds(v, i + 1);
        if i + 2 <= v.len() {
            lemma_parse_string_rest_bounds(v, i + 2);
        }
        if i + 6 <= v.len() {
            lemma_parse_string_rest_bounds(v, i + 6);
        }
        if i + 12 <= v.len() {
            lemma_parse_string_rest_bounds(v, i + 12);
        }
    }
}

/// A JSON string: an opening quote, then its body.
pub open spec fn spec_parse_string(v: Seq<char>, i: int) -> Option<(Seq<char>, int)> {
    if 0 <= i < v.len() && v[i] == '"' {
        spec_parse_string_rest(v, i + 1)
    } else {
        None
    }
}

pub proof fn lemma_parse_string_bounds(v: Seq<char>, i: int)
    ensures
        spec_parse_string(v, i) matches Some(r) ==> 0 <= i && i + 1 < r.1 <= v.len(),
{
    if 0 <= i < v.len() && v[i] == '"' {
        lemma_parse_string_rest_bounds(v, i + 1);
    }
}

/// The decoded character for a single-character JSON escape.
pub(crate) fn escape_char(c: char) -> (r: Option<char>)
    ensures
        r == spec_escape_char(c),
{
    if c == '"' {
        Some('"')
    } else if c == '\\' {
        Some('\\')
    } else if c == '/' {
        Some('/')
    } else if c == 'b' {
        Some('\u{0008}')
    } else if c == 'f' {
        Some('\u{000C}')
    } else if c == 'n' {
        Some('\n')
    } else if c == 'r' {
        Some('\r')
    } else if c == 't' {
        Some('\t')
    } else {
        None
    }
}

/// The numeric value of a hexadecimal digit character.
pub(crate) fn hex_digit_val(c: char) -> (r: Option<u32>)
    ensures
        r matches Some(h) ==> is_hex_digit(c) && h as nat == hex_val(c) && h < 16,
        r is None ==> !is_hex_digit(c),
{
    let u = c as u32;
    if 48 <= u && u <= 57 {
        Some(u - 48)
    } else if 97 <= u && u <= 102 {
        Some(u - 87)
    } else if 65 <= u && u <= 70 {
        Some(u - 55)
    } else {
        None
    }
}

/// Four hexadecimal digits starting at `i`, read as one number.
pub(crate) fn parse_hex4(s: &str, i: usize) -> (r: Option<u32>)
    requires
        i <= s@.len(),
    ensures
        r matches Some(code) ==> spec_hex4(s@, i as int) == Some(code) && code < 0x10000,
        r is None ==> spec_hex4(s@, i as int) is None,
{
    let n: usize = s.unicode_len();
    if n < 4 || i > n - 4 {
        return None;
    }
    let h0 = match hex_digit_val(s.get_char(i)) {
        Some(h) => h,
        None => {
            return None;
        },
    };
    let h1 = match hex_digit_val(s.get_char(i + 1)) {
        Some(h) => h,
        None => {
            return None;
        },
    };
    let h2 = match hex_digit_val(s.get_char(i + 2)) {
        Some(h) => h,
        None => {
            return None;
        },
    };
    let h3 = match hex_digit_val(s.get_char(i + 3)) {
        Some(h) => h,
        None => {
            return None;
        },
    };
    Some(h0 * 0x1000 + h1 * 0x100 + h2 * 0x10 + h3)
}

/// The body of a JSON string, read from just after the opening quote.
pub(crate) fn parse_string_rest(s: &str, i: usize) -> (r: Option<(Vec<char>, usize)>)
    requires
        i <= s@.len(),
    ensures
        r matches Some(p) ==> spec_parse_string_rest(s@, i as int) == Some((p.0@, p.1 as int)) && i
            < p.1 <= s@.len(),
        r is None ==> spec_parse_string_rest(s@, i as int) is None,
{
    let n: usize = s.unicode_len();
    let mut out: Vec<char> = Vec::new();
    let mut j: usize = i;
    loop
        invariant
            i <= j <= n,
            n == s@.len(),
            spec_parse_string_rest(s@, i as int) == spec_prepend(
                out@,
                spec_parse_string_rest(s@, j as int),
            ),
        decreases n - j,
    {
        if j >= n {
            return None;
        }
        let c = s.get_char(j);
        if c == '"' {
            proof {
                assert(out@ + Seq::<char>::empty() =~= out@);
            }
            return Some((out, j + 1));
        }
        if c == '\\' {
            if j + 1 >= n {
                return None;
            }
            let e = s.get_char(j + 1);
            if e == 'u' {
                let code = match parse_hex4(s, j + 2) {
                    Some(code) => code,
                    None => {
                        return None;
                    },
                };
                if 0xD800 <= code && code < 0xDC00 {
                    if !(n - j >= 8 && s.get_char(j + 6) == '\\' && s.get_char(j + 7) == 'u') {
                        return None;
                    }
                    let lo = match parse_hex4(s, j + 8) {
                        Some(lo) => lo,
                        None => {
                            return None;
                        },
                    };
                    if !(0xDC00 <= lo && lo < 0xE000) {
                        return None;
                    }
                    let combined: u32 = 0x10000 + (code - 0xD800) * 0x400 + (lo - 0xDC00);
                    match char::from_u32(combined) {
                        Some(ch) => {
                            proof {
                                assert(is_scalar_value(combined));
                                assert(spec_parse_string_rest(s@, j as int) == spec_prepend(
                                    seq![ch],
                                    spec_parse_string_rest(s@, j as int + 12),
                                ));
                                lemma_prepend_assoc(
                                    out@,
                                    seq![ch],
                                    spec_parse_string_rest(s@, j as int + 12),
                                );
                                assert(out@ + seq![ch] =~= out@.push(ch));
                            }
                            out.push(ch);
                            j = j + 12;
                        },
                        None => {
                            proof {
                                assert(false);
                            }
                            return None;
                        },
                    }
                } else if 0xDC00 <= code && code < 0xE000 {
                    return None;
                } else {
                    match char::from_u32(code) {
                        Some(ch) => {
                            proof {
                                assert(is_scalar_value(code));
                                assert(spec_parse_string_rest(s@, j as int) == spec_prepend(
                                    seq![ch],
                                    spec_parse_string_rest(s@, j as int + 6),
                                ));
                                lemma_prepend_assoc(
                                    out@,
                                    seq![ch],
                                    spec_parse_string_rest(s@, j as int + 6),
                                );
                                assert(out@ + seq![ch] =~= out@.push(ch));
                            }
                            out.push(ch);
                            j = j + 6;
                        },
                        None => {
                            proof {
                                assert(false);
                            }
                            return None;
                        },
                    }
                }
            } else {
                match escape_char(e) {
                    None => {
                        return None;
                    },
                    Some(ch) => {
                        proof {
                            assert(spec_parse_string_rest(s@, j as int) == spec_prepend(
                                seq![ch],
                                spec_parse_string_rest(s@, j as int + 2),
                            ));
                            lemma_prepend_assoc(
                                out@,
                                seq![ch],
                                spec_parse_string_rest(s@, j as int + 2),
                            );
                            assert(out@ + seq![ch] =~= out@.push(ch));
                        }
                        out.push(ch);
                        j = j + 2;
                    },
                }
            }
        } else if (c as u32) < 0x20 {
            return None;
        } else {
            proof {
                assert(spec_parse_string_rest(s@, j as int) == spec_prepend(
                    seq![c],
                    spec_parse_string_rest(s@, j as int + 1),
                ));
                lemma_prepend_assoc(out@, seq![c], spec_parse_string_rest(s@, j as int + 1));
                assert(out@ + seq![c] =~= out@.push(c));
            }
            out.push(c);
            j = j + 1;
        }
    }
}

/// A JSON string: an opening quote, then its body.
pub(crate) fn parse_string(s: &str, i: usize) -> (r: Option<(Vec<char>, usize)>)
    requires
        i <= s@.len(),
    ensures
        r matches Some(p) ==> spec_parse_string(s@, i as int) == Some((p.0@, p.1 as int)) && i + 1
            < p.1 <= s@.len(),
        r is None ==> spec_parse_string(s@, i as int) is None,
{
    let n: usize = s.unicode_len();
    if i >= n {
        return None;
    }
    if s.get_char(i) != '"' {
        return None;
    }
    parse_string_rest(s, i + 1)
}

/// String-awareness state of the ignored-value scanner.
#[derive(Clone, Copy)]
pub enum ScanState {
    Outside,
    Inside,
    Escaped,
}

/// Scans the raw text of an ignored object member value, one character at a
/// time, tracking container depth and string state, and stops at the first
/// `,` or `}` that closes the member: that is, at depth zero outside a
/// string. Yields the index of that delimiter. The value's text is not
/// otherwise validated.
pub open spec fn spec_skip_value(v: Seq<char>, i: int, depth: nat, st: ScanState) -> Option<int>
    decreases v.len() - i,
{
    if !(0 <= i < v.len()) {
        None
    } else {
        let c = v[i];
        match st {
            ScanState::Outside => {
                if depth == 0 && (c == ',' || c == '}') {
                    Some(i)
                } else if c == '[' || c == '{' {
                    spec_skip_value(v, i + 1, depth + 1, ScanState::Outside)
                } else if c == ']' || c == '}' {
                    if depth == 0 {
                        None
                    } else {
                        spec_skip_value(v, i + 1, (depth - 1) as nat, ScanState::Outside)
                    }
                } else if c == '"' {
                    spec_skip_value(v, i + 1, depth, ScanState::Inside)
                } else {
                    spec_skip_value(v, i + 1, depth, ScanState::Outside)
                }
            },
            ScanState::Inside => {
                if c == '"' {
                    spec_skip_value(v, i + 1, depth, ScanState::Outside)
                } else if c == '\\' {
                    spec_skip_value(v, i + 1, depth, ScanState::Escaped)
                } else {
                    spec_skip_value(v, i + 1, depth, ScanState::Inside)
                }
            },
            ScanState::Escaped => spec_skip_value(v, i + 1, depth, ScanState::Inside),
        }
    }
}

pub proof fn lemma_skip_value_bounds(v: Seq<char>, i: int, depth: nat, st: ScanState)
    ensures
        spec_skip_value(v, i, depth, st) matches Some(m) ==> 0 <= i <= m < v.len(),
    decreases v.len() - i,
{
    if 0 <= i < v.len() {
        lemma_skip_value_bounds(v, i + 1, depth + 1, ScanState::Outside);
        if depth > 0 {
            lemma_skip_value_bounds(v, i + 1, (depth - 1) as nat, ScanState::Outside);
        }
        lemma_skip_value_bounds(v, i + 1, depth, ScanState::Outside);
        lemma_skip_value_bounds(v, i + 1, depth, ScanState::Inside);
        lemma_skip_value_bounds(v, i + 1, depth, ScanState::Escaped);
    }
}

/// Scans past an ignored object member value; see [`spec_skip_value`].
pub(crate) fn skip_value(s: &str, i: usize) -> (r: Option<usize>)
    requires
        i <= s@.len(),
    ensures
        r matches Some(m) ==> spec_skip_value(s@, i as int, 0, ScanState::Outside) == Some(
            m as int,
        ) && i <= m < s@.len(),
        r is None ==> spec_skip_value(s@, i as int, 0, ScanState::Outside) is None,
{
    let n: usize = s.unicode_len();
    let mut j: usize = i;
    let mut depth: usize = 0;
    let mut st: ScanState = ScanState::Outside;
    loop
        invariant
            i <= j <= n,
            depth <= j - i,
            n == s@.len(),
            spec_skip_value(s@, i as int, 0, ScanState::Outside) == spec_skip_value(
                s@,
                j as int,
                depth as nat,
                st,
            ),
        decreases n - j,
    {
        if j >= n {
            return None;
        }
        let c = s.get_char(j);
        match st {
            ScanState::Outside => {
                if depth == 0 && (c == ',' || c == '}') {
                    return Some(j);
                } else if c == '[' || c == '{' {
                    depth = depth + 1;
                    j = j + 1;
                } else if c == ']' || c == '}' {
                    if depth == 0 {
                        return None;
                    }
                    depth = depth - 1;
                    j = j + 1;
                } else if c == '"' {
                    st = ScanState::Inside;
                    j = j + 1;
                } else {
                    j = j + 1;
                }
            },
            ScanState::Inside => {
                if c == '"' {
                    st = ScanState::Outside;
                } else if c == '\\' {
                    st = ScanState::Escaped;
                }
                j = j + 1;
            },
            ScanState::Escaped => {
                st = ScanState::Inside;
                j = j + 1;
            },
        }
    }
}

/// The elements of a JSON array of non-negative integers, read from just
/// after the opening bracket (or a separating comma) of a non-empty array:
/// yields the values in array order and the index after the closing bracket.
pub open spec fn spec_parse_ids_rest(v: Seq<char>, i: int) -> Option<(Seq<u64>, int)>
    decreases v.len() - i,
    via spec_parse_ids_rest_dec
{
    let j = spec_skip_ws(v, i);
    match spec_parse_u64(v, j) {
        None => None,
        Some((n, k)) => {
            let m = spec_skip_ws(v, k);
            if m < v.len() && v[m] == ',' {
                spec_prepend(seq![n], spec_parse_ids_rest(v, m + 1))
            } else if m < v.len() && v[m] == ']' {
                Some((seq![n], m + 1))
            } else {
                None
            }
        },
    }
}

#[via_fn]
proof fn spec_parse_ids_rest_dec(v: Seq<char>, i: int) {
    lemma_skip_ws_bounds(v, i);
    let j = spec_skip_ws(v, i);
    lemma_parse_u64_bounds(v, j);
    match spec_parse_u64(v, j) {
        None => {},
        Some(p) => {
            lemma_skip_ws_bounds(v, p.1);
        },
    }
}

pub proof fn lemma_parse_ids_rest_bounds(v: Seq<char>, i: int)
    ensures
        spec_parse_ids_rest(v, i) matches Some(r) ==> 0 <= i && i < r.1 <= v.len(),
    decreases v.len() - i,
{
    lemma_skip_ws_bounds(v, i);
    let j = spec_skip_ws(v, i);
    lemma_parse_u64_bounds(v, j);
    match spec_parse_u64(v, j) {
        None => {},
        Some(p) => {
            lemma_skip_ws_bounds(v, p.1);
            let m = spec_skip_ws(v, p.1);
            if m < v.len() && v[m] == ',' {
                lemma_parse_ids_rest_bounds(v, m + 1);
            }
        },
    }
}

/// A JSON array of non-negative integers: brackets around a possibly empty,
/// comma-separated list of integers, with whitespace in the usual places.
pub open spec fn spec_parse_id_array(v: Seq<char>, i: int) -> Option<(Seq<u64>, int)> {
    if 0 <= i < v.len() && v[i] == '[' {
        let j = spec_skip_ws(v, i + 1);
        if j < v.len() && v[j] == ']' {
            Some((Seq::<u64>::empty(), j + 1))
        } else {
            spec_parse_ids_rest(v, i + 1)
        }
    } else {
        None
    }
}

pub proof fn lemma_parse_id_array_bounds(v: Seq<char>, i: int)
    ensures
        spec_parse_id_array(v, i) matches Some(r) ==> 0 <= i && i < r.1 <= v.len(),
{
    if 0 <= i < v.len() && v[i] == '[' {
        lemma_skip_ws_bounds(v, i + 1);
        lemma_parse_ids_rest_bounds(v, i + 1);
    }
}

/// Parses the elements of a non-empty JSON integer array.
pub(crate) fn parse_ids_rest(s: &str, i: usize) -> (r: Option<(Vec<u64>, usize)>)
    requires
        i <= s@.len(),
    ensures
        r matches Some(p) ==> spec_parse_ids_rest(s@, i as int) == Some((p.0@, p.1 as int)) && i
            < p.1 <= s@.len(),
        r is None ==> spec_parse_ids_rest(s@, i as int) is None,
{
    let n: usize = s.unicode_len();
    let mut out: Vec<u64> = Vec::new();
    let mut j: usize = i;
    loop
        invariant
            i <= j <= n,
            n == s@.len(),
            spec_parse_ids_rest(s@, i as int) == spec_prepend(
                out@,
                spec_parse_ids_rest(s@, j as int),
            ),
        decreases n - j,
    {
        let j2 = skip_ws(s, j);
        let (num, k) = match parse_u64(s, j2) {
            Some(p) => p,
            None => {
                return None;
            },
        };
        let m = skip_ws(s, k);
        if m >= n {
            return None;
        }
        let c = s.get_char(m);
        if c == ',' {
            proof {
                assert(spec_parse_ids_rest(s@, j as int) == spec_prepend(
                    seq![num],
                    spec_parse_ids_rest(s@, m as int + 1),
                ));
                lemma_prepend_assoc(out@, seq![num], spec_parse_ids_rest(s@, m as int + 1));
                assert(out@ + seq![num] =~= out@.push(num));
            }
            out.push(num);
            j = m + 1;
        } else if c == ']' {
            proof {
                assert(spec_parse_ids_rest(s@, j as int) == Some((seq![num], m as int + 1)));
                assert(out@ + seq![num] =~= out@.push(num));
            }
            out.push(num);
            return Some((out, m + 1));
        } else {
            return None;
        }
    }
}

/// Parses a JSON array of non-negative integers.
pub(crate) fn parse_id_array(s: &str, i: usize) -> (r: Option<(Vec<u64>, usize)>)
    requires
        i <= s@.len(),
    ensures
        r matches Some(p) ==> spec_parse_id_array(s@, i as int) == Some((p.0@, p.1 as int)) && i
            < p.1 <= s@.len(),
        r is None ==> spec_parse_id_array(s@, i as int) is None,
{
    let n: usize = s.unicode_len();
    if i >= n {
        return None;
    }
    if s.get_char(i) != '[' {
        return None;
    }
    let j = skip_ws(s, i + 1);
    if j < n && s.get_char(j) == ']' {
        let empty: Vec<u64> = Vec::new();
        proof {
            assert(empty@ =~= Seq::<u64>::empty());
        }
        return Some((empty, j + 1));
    }
    parse_ids_rest(s, i + 1)
}

/// The decoded form of a top-stories response: the whole body is one JSON
/// array of non-negative integers, in rank order.
pub open spec fn spec_decode_top_list(v: Seq<char>) -> Option<Seq<u64>> {
    let i = spec_skip_ws(v, 0);
    match spec_parse_id_array(v, i) {
        None => None,
        Some((ids, j)) => {
            if spec_skip_ws(v, j) == v.len() {
                Some(ids)
            } else {
                None
            }
        },
    }
}

/// Decodes a top-stories response body, preserving array order.
pub fn decode_top_list(s: &str) -> (r: Option<Vec<u64>>)
    ensures
        r matches Some(ids) ==> spec_decode_top_list(s@) == Some(ids@),
        r is None ==> spec_decode_top_list(s@) is None,
{
    let n: usize = s.unicode_len();
    let i = skip_ws(s, 0);
    let (ids, j) = match parse_id_array(s, i) {
        Some(p) => p,
        None => {
            return None;
        },
    };
    if skip_ws(s, j) == n {
        Some(ids)
    } else {
        None
    }
}

/// The members of an item object as they stand in the JSON text: each known
/// member at most once, the kind tag still a raw string, unknown members
/// dropped.
pub struct RawItem {
    pub id: Option<u64>,
    pub by: Option<Seq<char>>,
    pub title: Option<Seq<char>>,
    pub kids: Option<Seq<u64>>,
    pub kind: Option<Seq<char>>,
}

/// An item object with no members read yet.
pub open spec fn spec_empty_raw_item() -> RawItem {
    RawItem { id: None, by: None, title: None, kids: None, kind: None }
}

/// A character that can begin a JSON value.
pub open spec fn is_value_start(c: char) -> bool {
    c == '"' || c == '[' || c == '{' || c == '-' || is_digit(c) || c == 't' || c == 'f' || c == 'n'
}

/// One member value of the item object, read at `i` and folded onto `acc`.
/// A known member must hold a value of its declared shape and may occur only
/// once; an unknown member must begin like a JSON value and is skipped.
pub open spec fn spec_member_value(v: Seq<char>, i: int, key: Seq<char>, acc: RawItem) -> Option<
    (RawItem, int),
> {
    if key == "id"@ {
        if acc.id is Some {
            None
        } else {
            match spec_parse_u64(v, i) {
                None => None,
                Some((n, j)) => Some(
                    (
                        RawItem {
                            id: Some(n),
                            by: acc.by,
                            title: acc.title,
                            kids: acc.kids,
                            kind: acc.kind,
                        },
                        j,
                    ),
                ),
            }
        }
    } else if key == "by"@ {
        if acc.by is Some {
            None
        } else {
            match spec_parse_string(v, i) {
                None => None,
                Some((s, j)) => Some(
                    (
                        RawItem {
                            id: acc.id,
                            by: Some(s),
                            title: acc.title,
                            kids: acc.kids,
                            kind: acc.kind,
                        },
                        j,
                    ),
                ),
            }
        }
    } else if key == "title"@ {
        if acc.title is Some {
            None
        } else {
            match spec_parse_string(v, i) {
                None => None,
                Some((s, j)) => Some(
                    (
                        RawItem {
                            id: acc.id,
                            by: acc.by,
                            title: Some(s),
                            kids: acc.kids,
                            kind: acc.kind,
                        },
                        j,
                    ),
                ),
            }
        }
    } else if key == "kids"@ {
        if acc.kids is Some {
            None
        } else {
            match spec_parse_id_array(v, i) {
                None => None,
                Some((ids, j)) => Some(
                    (
                        RawItem {
                            id: acc.id,
                            by: acc.by,
                            title: acc.title,
                            kids: Some(ids),
                            kind: acc.kind,
                        },
                        j,
                    ),
                ),
            }
        }
    } else if key == "type"@ {
        if acc.kind is Some {
            None
        } else {
            match spec_parse_string(v, i) {
                None => None,
                Some((s, j)) => Some(
                    (
                        RawItem {
                            id: acc.id,
                            by: acc.by,
                            title: acc.title,
                            kids: acc.kids,
                            kind: Some(s),
                        },
                        j,
                    ),
                ),
            }
        }
    } else {
        if 0 <= i < v.len() && is_value_start(v[i]) {
            match spec_skip_value(v, i, 0, ScanState::Outside) {
                None => None,
                Some(j) => Some((acc, j)),
            }
        } else {
            None
        }
    }
}

pub proof fn lemma_member_value_bounds(v: Seq<char>, i: int, key: Seq<char>, acc: RawItem)
    ensures
        spec_member_value(v, i, key, acc) matches Some(r) ==> 0 <= i <= r.1 <= v.len(),
{
    lemma_parse_u64_bounds(v, i);
    lemma_parse_string_bounds(v, i);
    lemma_parse_id_array_bounds(v, i);
    lemma_skip_value_bounds(v, i, 0, ScanState::Outside);
}

/// The members of a non-empty item object, read from just after the opening
/// brace (or a separating comma): yields the folded members and the index
/// after the closing brace.
pub open spec fn spec_parse_members(v: Seq<char>, i: int, acc: RawItem) -> Option<(RawItem, int)>
    decreases v.len() - i,
    via spec_parse_members_dec
{
    let j = spec_skip_ws(v, i);
    match spec_parse_string(v, j) {
        None => None,
        Some((key, k)) => {
            let m = spec_skip_ws(v, k);
            if !(m < v.len() && v[m] == ':') {
                None
            } else {
                let p = spec_skip_ws(v, m + 1);
                match spec_member_value(v, p, key, acc) {
                    None => None,
                    Some((acc2, q0)) => {
                        let q = spec_skip_ws(v, q0);
                        if q < v.len() && v[q] == ',' {
                            spec_parse_members(v, q + 1, acc2)
                        } else if q < v.len() && v[q] == '}' {
                            Some((acc2, q + 1))
                        } else {
                            None
                        }
                    },
                }
            }
        },
    }
}

#[via_fn]
proof fn spec_parse_members_dec(v: Seq<char>, i: int, acc: RawItem) {
    lemma_skip_ws_bounds(v, i);
    let j = spec_skip_ws(v, i);
    lemma_parse_string_bounds(v, j);
    match spec_parse_string(v, j) {
        None => {},
        Some((key, k)) => {
            lemma_skip_ws_bounds(v, k);
            let m = spec_skip_ws(v, k);
            if m < v.len() && v[m] == ':' {
                lemma_skip_ws_bounds(v, m + 1);
                let p = spec_skip_ws(v, m + 1);
                lemma_member_value_bounds(v, p, key, acc);
                match spec_member_value(v, p, key, acc) {
                    None => {},
                    Some((acc2, q0)) => {
                        lemma_skip_ws_bounds(v, q0);
                    },
                }
            }
        },
    }
}

/// An item object: braces around a possibly empty member list.
pub open spec fn spec_parse_item_object(v: Seq<char>, i: int) -> Option<(RawItem, int)> {
    if 0 <= i < v.len() && v[i] == '{' {
        let j = spec_skip_ws(v, i + 1);
        if j < v.len() && v[j] == '}' {
            Some((spec_empty_raw_item(), j + 1))
        } else {
            spec_parse_members(v, i + 1, spec_empty_raw_item())
        }
    } else {
        None
    }
}

/// The raw decoded form of an item response: the whole body is one item
/// object.
pub open spec fn spec_decode_raw_item(v: Seq<char>) -> Option<RawItem> {
    let i = spec_skip_ws(v, 0);
    match spec_parse_item_object(v, i) {
        None => None,
        Some((raw, j)) => {
            if spec_skip_ws(v, j) == v.len() {
                Some(raw)
            } else {
                None
            }
        },
    }
}

/// The raw item members held as executable values.
pub open spec fn raw_from_parts(
    id: Option<u64>,
    by: Option<Vec<char>>,
    title: Option<Vec<char>>,
    kids: Option<Vec<u64>>,
    kind: Option<Vec<char>>,
) -> RawItem {
    RawItem {
        id,
        by: match by {
            None => None,
            Some(x) => Some(x@),
        },
        title: match title {
            None => None,
            Some(x) => Some(x@),
        },
        kids: match kids {
            None => None,
            Some(x) => Some(x@),
        },
        kind: match kind {
            None => None,
            Some(x) => Some(x@),
        },
    }
}

/// Compares a character vector against a string slice.
pub(crate) fn vec_eq_str(v: &Vec<char>, s: &str) -> (r: bool)
    ensures
        r == (v@ == s@),
{
    let sn: usize = s.unicode_len();
    if v.len() != sn {
        return false;
    }
    let mut i: usize = 0;
    loop
        invariant
            i <= sn,
            sn == s@.len(),
            v@.len() == s@.len(),
            forall|t: int| 0 <= t < i ==> v@[t] == s@[t],
        decreases sn - i,
    {
        if i >= sn {
            proof {
                assert(v@ =~= s@);
            }
            return true;
        }
        if v[i] != s.get_char(i) {
            return false;
        }
        i = i + 1;
    }
}

/// Decodes an item response body into its raw members, in the order
/// `(id, by, title, kids, kind)`.
pub(crate) fn decode_raw_item(s: &str) -> (r: Option<
    (Option<u64>, Option<Vec<char>>, Option<Vec<char>>, Option<Vec<u64>>, Option<Vec<char>>),
>)
    ensures
        r matches Some(p) ==> spec_decode_raw_item(s@) == Some(
            raw_from_parts(p.0, p.1, p.2, p.3, p.4),
        ),
        r is None ==> spec_decode_raw_item(s@) is None,
{
    let n: usize = s.unicode_len();
    let i0 = skip_ws(s, 0);
    if i0 >= n {
        return None;
    }
    if s.get_char(i0) != '{' {
        return None;
    }
    let j0 = skip_ws(s, i0 + 1);
    if j0 < n && s.get_char(j0) == '}' {
        if skip_ws(s, j0 + 1) == n {
            return Some((None, None, None, None, None));
        } else {
            return None;
        }
    }
    let mut id: Option<u64> = None;
    let mut by: Option<Vec<char>> = None;
    let mut title: Option<Vec<char>> = None;
    let mut kids: Option<Vec<u64>> = None;
    let mut kind: Option<Vec<char>> = None;
    let mut j: usize = i0 + 1;
    loop
        invariant
            i0 + 1 <= j <= n,
            n == s@.len(),
            i0 == spec_skip_ws(s@, 0),
            i0 < n,
            s@[i0 as int] == '{',
            !(spec_skip_ws(s@, i0 as int + 1) < n && s@[spec_skip_ws(s@, i0 as int + 1)] == '}'),
            spec_parse_members(s@, i0 as int + 1, spec_empty_raw_item()) == spec_parse_members(
                s@,
                j as int,
                raw_from_parts(id, by, title, kids, kind),
            ),
        decreases n - j,
    {
        let ghost acc0 = raw_from_parts(id, by, title, kids, kind);
        let jk = skip_ws(s, j);
        let (key, k) = match parse_string(s, jk) {
            Some(p) => p,
            None => {
                return None;
            },
        };
        let m = skip_ws(s, k);
        if m >= n {
            return None;
        }
        if s.get_char(m) != ':' {
            return None;
        }
        let p = skip_ws(s, m + 1);
        let q0: usize;
        if vec_eq_str(&key, "id") {
            if id.is_some() {
                return None;
            }
            match parse_u64(s, p) {
                Some(x) => {
                    id = Some(x.0);
                    q0 = x.1;
                },
                None => {
                    return None;
                },
            }
        } else if vec_eq_str(&key, "by") {
            if by.is_some() {
                return None;
            }
            match parse_string(s, p) {
                Some(x) => {
                    by = Some(x.0);
                    q0 = x.1;
                },
                None => {
                    return None;
                },
            }
        } else if vec_eq_str(&key, "title") {
            if title.is_some() {
                return None;
            }
            match parse_string(s, p) {
                Some(x) => {
                    title = Some(x.0);
                    q0 = x.1;
                },
                None => {
                    return None;
                },
            }
        } else if vec_eq_str(&key, "kids") {
            if kids.is_some() {
                return None;
            }
            match parse_id_array(s, p) {
                Some(x) => {
                    kids = Some(x.0);
                    q0 = x.1;
                },
                None => {
                    return None;
                },
            }
        } else if vec_eq_str(&key, "type") {
            if kind.is_some() {
                return None;
            }
            match parse_string(s, p) {
                Some(x) => {
                    kind = Some(x.0);
                    q0 = x.1;
                },
                None => {
                    return None;
                },
            }
        } else {
            if p >= n {
                return None;
            }
            let c = s.get_char(p);
            if !(c == '"' || c == '[' || c == '{' || c == '-' || digit_exec(c) || c == 't' || c
                == 'f' || c == 'n') {
                return None;
            }
            match skip_value(s, p) {
                Some(x) => {
                    q0 = x;
                },
                None => {
                    return None;
                },
            }
        }
        proof {
            assert(spec_member_value(s@, p as int, key@, acc0) == Some(
                (raw_from_parts(id, by, title, kids, kind), q0 as int),
            ));
        }
        let q = skip_ws(s, q0);
        if q >= n {
            return None;
        }
        let cq = s.get_char(q);
        if cq == ',' {
            j = q + 1;
        } else if cq == '}' {
            if skip_ws(s, q + 1) == n {
                return Some((id, by, title, kids, kind));
            } else {
                return None;
            }
        } else {
            return None;
        }
    }
}

/// Relies on String's FromIterator implementation: collecting characters
/// yields the string of exactly those characters, in order.
#[verifier::external_body]
pub(crate) fn chars_to_string(chars: &Vec<char>) -> (r: String)
    ensures
        r@ == chars@,
{
    chars.iter().collect()
}

/// Ten to the given power.
pub open spec fn pow10(k: nat) -> nat
    decreases k,
{
    if k == 0 {
        1
    } else {
        10 * pow10((k - 1) as nat)
    }
}

pub proof fn lemma_digit_char_val(d: nat)
    requires
        d < 10,
    ensures
        is_digit(spec_digit_char(d)),
        digit_val(spec_digit_char(d)) == d,
        d > 0 ==> spec_digit_char(d) != '0',
{
}

pub proof fn lemma_u64_digits_shape(n: nat)
    ensures
        spec_u64_digits(n).len() >= 1,
        forall|t: int|
            0 <= t < spec_u64_digits(n).len() ==> is_digit(#[trigger] spec_u64_digits(n)[t]),
        n > 0 ==> spec_u64_digits(n)[0] != '0',
    decreases n,
{
    if n < 10 {
        lemma_digit_char_val(n);
    } else {
        lemma_u64_digits_shape(n / 10);
        lemma_digit_char_val(n % 10);
    }
}

pub proof fn lemma_parse_digits_encoding(v: Seq<char>, i: int, acc: nat, n: nat)
    requires
        0 <= i,
        i + spec_u64_digits(n).len() <= v.len(),
        v.subrange(i, i + spec_u64_digits(n).len() as int) == spec_u64_digits(n),
    ensures
        spec_parse_digits(v, i, acc) == spec_parse_digits(
            v,
            i + spec_u64_digits(n).len() as int,
            acc * pow10(spec_u64_digits(n).len()) + n,
        ),
    decreases n,
{
    let ds = spec_u64_digits(n);
    if n < 10 {
        lemma_digit_char_val(n);
        assert(v[i] == v.subrange(i, i + 1)[0]);
        assert(digit_val(v[i]) == n);
        assert(pow10(1) == 10 * pow10(0));
        assert(spec_parse_digits(v, i, acc) == spec_parse_digits(v, i + 1, acc * 10 + n));
    } else {
        let hd = spec_u64_digits(n / 10);
        let k = hd.len() as int;
        assert(ds == hd + seq![spec_digit_char(n % 10)]);
        assert(v.subrange(i, i + k) =~= hd) by {
            assert forall|t: int| 0 <= t < k implies v.subrange(i, i + k)[t] == hd[t] by {
                assert(v.subrange(i, i + k)[t] == v[i + t]);
                assert(v[i + t] == v.subrange(i, i + ds.len() as int)[t]);
                assert(ds[t] == hd[t]);
            }
        }
        lemma_parse_digits_encoding(v, i, acc, n / 10);
        let acc2 = acc * pow10(hd.len()) + n / 10;
        lemma_digit_char_val(n % 10);
        assert(v[i + k] == v.subrange(i, i + ds.len() as int)[k]);
        assert(v[i + k] == spec_digit_char(n % 10));
        assert(spec_parse_digits(v, i + k, acc2) == spec_parse_digits(
            v,
            i + k + 1,
            acc2 * 10 + (n % 10),
        ));
        assert(pow10(ds.len()) == 10 * pow10(hd.len()));
        assert(acc2 * 10 + (n % 10) == acc * pow10(ds.len()) + n) by (nonlinear_arith)
            requires
                acc2 == acc * pow10(hd.len()) + n / 10,
                pow10(ds.len()) == 10 * pow10(hd.len()),
                n >= 10,
        {
        }
    }
}

pub proof fn lemma_parse_u64_encoding(v: Seq<char>, i: int, n: u64)
    requires
        0 <= i,
        i + spec_u64_digits(n as nat).len() <= v.len(),
        v.subrange(i, i + spec_u64_digits(n as nat).len() as int) == spec_u64_digits(n as nat),
        i + spec_u64_digits(n as nat).len() == v.len() || !is_digit(
            v[i + spec_u64_digits(n as nat).len() as int],
        ),
    ensures
        spec_parse_u64(v, i) == Some((n, i + spec_u64_digits(n as nat).len() as int)),
{
    let ds = spec_u64_digits(n as nat);
    let last = i + ds.len() as int;
    lemma_u64_digits_shape(n as nat);
    assert(v[i] == v.subrange(i, last)[0]);
    if n == 0 {
        assert(ds == seq![spec_digit_char(0)]);
        assert(v[i] == '0');
    } else {
        assert(v[i] != '0');
        lemma_parse_digits_encoding(v, i, 0, n as nat);
        assert(0 * pow10(ds.len()) + n as nat == n as nat);
        assert(spec_parse_digits(v, last, n as nat) == (n as nat, last));
    }
}

/// The canonical rendering of a list of identifiers: their decimal forms,
/// separated by commas.
pub open spec fn spec_encode_ids(ids: Seq<u64>) -> Seq<char>
    decreases ids.len(),
{
    if ids.len() == 0 {
        Seq::empty()
    } else if ids.len() == 1 {
        spec_u64_digits(ids[0] as nat)
    } else {
        spec_u64_digits(ids[0] as nat) + seq![','] + spec_encode_ids(ids.drop_first())
    }
}

/// The canonical rendering of a top-stories body: the identifiers as a
/// JSON array, in order.
pub open spec fn spec_encode_top_list(ids: Seq<u64>) -> Seq<char> {
    seq!['['] + spec_encode_ids(ids) + seq![']']
}

pub proof fn lemma_parse_ids_rest_encoding(v: Seq<char>, i: int, ids: Seq<u64>)
    requires
        ids.len() > 0,
        0 <= i,
        i + spec_encode_ids(ids).len() < v.len(),
        v.subrange(i, i + spec_encode_ids(ids).len() as int) == spec_encode_ids(ids),
        v[i + spec_encode_ids(ids).len() as int] == ']',
    ensures
        spec_parse_ids_rest(v, i) == Some((ids, i + spec_encode_ids(ids).len() + 1)),
    decreases ids.len(),
{
    let enc = spec_encode_ids(ids);
    let d0 = spec_u64_digits(ids[0] as nat);
    let k = d0.len() as int;
    lemma_u64_digits_shape(ids[0] as nat);
    assert(v.subrange(i, i + k) =~= d0) by {
        assert forall|t: int| 0 <= t < k implies v.subrange(i, i + k)[t] == d0[t] by {
            assert(v.subrange(i, i + k)[t] == v[i + t]);
            assert(v[i + t] == v.subrange(i, i + enc.len() as int)[t]);
            assert(enc[t] == d0[t]);
        }
    }
    assert(v[i] == d0[0]);
    assert(!is_json_ws(v[i]));
    assert(spec_skip_ws(v, i) == i);
    if ids.len() == 1 {
        lemma_parse_u64_encoding(v, i, ids[0]);
        assert(!is_json_ws(v[i + k]));
        assert(spec_skip_ws(v, i + k) == i + k);
        assert(seq![ids[0]] =~= ids);
    } else {
        let rest = ids.drop_first();
        let renc = spec_encode_ids(rest);
        assert(v[i + k] == v.subrange(i, i + enc.len() as int)[k]);
        assert(v[i + k] == ',');
        assert(!is_digit(v[i + k]));
        lemma_parse_u64_encoding(v, i, ids[0]);
        assert(!is_json_ws(v[i + k]));
        assert(spec_skip_ws(v, i + k) == i + k);
        assert(v.subrange(i + k + 1, i + k + 1 + renc.len() as int) =~= renc) by {
            assert forall|t: int| 0 <= t < renc.len() implies v.subrange(
                i + k + 1,
                i + k + 1 + renc.len() as int,
            )[t] == renc[t] by {
                assert(v.subrange(i + k + 1, i + k + 1 + renc.len() as int)[t] == v[i + k + 1 + t]);
                assert(v[i + k + 1 + t] == v.subrange(i, i + enc.len() as int)[k + 1 + t]);
                assert(enc[k + 1 + t] == renc[t]);
            }
        }
        assert(v[i + k + 1 + renc.len() as int] == ']');
        lemma_parse_ids_rest_encoding(v, i + k + 1, rest);
        assert(spec_parse_ids_rest(v, i) == spec_prepend(
            seq![ids[0]],
            spec_parse_ids_rest(v, i + k + 1),
        ));
        assert(seq![ids[0]] + rest =~= ids);
    }
}

/// Decoding inverts encoding: any list of identifiers, rendered as a JSON
/// array, decodes back to exactly that list — element order and count are
/// preserved end-to-end.
pub proof fn lemma_top_list_round_trip(ids: Seq<u64>)
    ensures
        spec_decode_top_list(spec_encode_top_list(ids)) == Some(ids),
{
    let v = spec_encode_top_list(ids);
    let enc = spec_encode_ids(ids);
    assert(v[0] == '[');
    assert(!is_json_ws(v[0]));
    assert(spec_skip_ws(v, 0) == 0);
    assert(spec_skip_ws(v, v.len() as int) == v.len());
    if ids.len() == 0 {
        assert(v.len() == 2);
        assert(v[1] == ']');
        assert(!is_json_ws(v[1]));
        assert(spec_skip_ws(v, 1) == 1);
        assert(spec_parse_id_array(v, 0) == Some((Seq::<u64>::empty(), 2int)));
        assert(ids =~= Seq::<u64>::empty());
    } else {
        let d0 = spec_u64_digits(ids[0] as nat);
        lemma_u64_digits_shape(ids[0] as nat);
        assert(enc[0] == d0[0]);
        assert(v[1] == enc[0]);
        assert(is_digit(v[1]));
        assert(!is_json_ws(v[1]));
        assert(spec_skip_ws(v, 1) == 1);
        assert(v[1] != ']');
        assert(v.subrange(1, 1 + enc.len() as int) =~= enc) by {
            assert forall|t: int| 0 <= t < enc.len() implies v.subrange(
                1,
                1 + enc.len() as int,
            )[t] == enc[t] by {
                assert(v.subrange(1, 1 + enc.len() as int)[t] == v[1 + t]);
            }
        }
        assert(v[1 + enc.len() as int] == ']');
        lemma_parse_ids_rest_encoding(v, 1, ids);
    }
}

} // verus!
