//! JSON text primitives for the crate's own wire formats.
//!
//! The prompt template, the credential-cache record, and the provider
//! payload are all JSON text whose exact shape this crate owns, so the
//! pieces are parsed and rendered here directly: whitespace, strings with
//! the full escape set (including `\uXXXX` and surrogate pairs), and
//! unsigned integers.

use vstd::prelude::*;
use crate::decimal::{all_digits, digit_val, digits_val, is_digit, pow10};
use crate::text::char_from_u32;

verus! {

pub open spec fn is_ws(c: char) -> bool {
    c == ' ' || c == '\t' || c == '\n' || c == '\r'
}

/// First index at or after `i` holding a non-whitespace character.
pub open spec fn spec_skip_ws(s: Seq<char>, i: int) -> int
    decreases s.len() - i
        when 0 <= i <= s.len()
{
    if i < s.len() && is_ws(s[i]) {
        spec_skip_ws(s, i + 1)
    } else {
        i
    }
}

pub fn skip_ws(s: &Vec<char>, i: usize) -> (j: usize)
    requires
        i <= s@.len(),
    ensures
        j as int == spec_skip_ws(s@, i as int),
        i <= j <= s@.len(),
{
    let mut j: usize = i;
    while j < s.len() && (s[j] == ' ' || s[j] == '\t' || s[j] == '\n' || s[j] == '\r')
        invariant
            i <= j <= s.len(),
            spec_skip_ws(s@, i as int) == spec_skip_ws(s@, j as int),
        decreases s@.len() - j,
    {
        j += 1;
    }
    j
}

/// Value of a hexadecimal digit, or `-1` for any other character.
pub open spec fn hex_val(c: char) -> int {
    if '0' <= c && c <= '9' {
        c as int - '0' as int
    } else if 'a' <= c && c <= 'f' {
        c as int - 'a' as int + 10
    } else if 'A' <= c && c <= 'F' {
        c as int - 'A' as int + 10
    } else {
        -1
    }
}

pub open spec fn is_hex(c: char) -> bool {
    hex_val(c) >= 0
}

fn hex_digit(c: char) -> (r: Option<u8>)
    ensures
        r matches Some(h) ==> is_hex(c) && h as int == hex_val(c) && h < 16,
        r is None ==> !is_hex(c),
{
    if '0' <= c && c <= '9' {
        Some(((c as u32) - ('0' as u32)) as u8)
    } else if 'a' <= c && c <= 'f' {
        Some(((c as u32) - ('a' as u32) + 10) as u8)
    } else if 'A' <= c && c <= 'F' {
        Some(((c as u32) - ('A' as u32) + 10) as u8)
    } else {
        None
    }
}

/// The character denoted by a single-character escape, if the escape is
/// one JSON allows.
pub open spec fn unescape_char(e: char) -> Option<char> {
    if e == '"' {
        Some('"')
    } else if e == '\\' {
        Some('\\')
    } else if e == '/' {
        Some('/')
    } else if e == 'b' {
        Some('\u{8}')
    } else if e == 'f' {
        Some('\u{c}')
    } else if e == 'n' {
        Some('\n')
    } else if e == 'r' {
        Some('\r')
    } else if e == 't' {
        Some('\t')
    } else {
        None
    }
}

/// Parse the body of a JSON string starting at `i` (just after the opening
/// quote): the decoded characters and the index just past the closing quote.
pub open spec fn spec_parse_string_body(s: Seq<char>, i: int) -> Option<(Seq<char>, int)>
    decreases s.len() - i
        when 0 <= i <= s.len()
{
    if i >= s.len() {
        None
    } else if s[i] == '"' {
        Some((Seq::<char>::empty(), i + 1))
    } else if s[i] == '\\' {
        if i + 2 > s.len() {
            None
        } else if s[i + 1] == 'u' {
            if i + 6 > s.len() {
                None
            } else if !(is_hex(s[i + 2]) && is_hex(s[i + 3]) && is_hex(s[i + 4]) && is_hex(
                s[i + 5],
            )) {
                None
            } else {
                let code: int = hex_val(s[i + 2]) * 4096 + hex_val(s[i + 3]) * 256 + hex_val(s[i + 4])
                    * 16 + hex_val(s[i + 5]);
                if 0xD800 <= code && code < 0xDC00 {
                    if i + 12 > s.len() {
                        None
                    } else if !(s[i + 6] == '\\' && s[i + 7] == 'u' && is_hex(s[i + 8]) && is_hex(
                        s[i + 9],
                    ) && is_hex(s[i + 10]) && is_hex(s[i + 11])) {
                        None
                    } else {
                        let lo: int = hex_val(s[i + 8]) * 4096 + hex_val(s[i + 9]) * 256 + hex_val(
                            s[i + 10],
                        ) * 16 + hex_val(s[i + 11]);
                        if !(0xDC00 <= lo && lo < 0xE000) {
                            None
                        } else {
                            let cp: int = 0x10000 + (code - 0xD800) * 1024 + (lo - 0xDC00);
                            match spec_parse_string_body(s, i + 12) {
                                Some((t, j)) => Some((seq![((cp as u32) as char)] + t, j)),
                                None => None,
                            }
                        }
                    }
                } else if 0xDC00 <= code && code < 0xE000 {
                    None
                } else {
                    match spec_parse_string_body(s, i + 6) {
                        Some((t, j)) => Some((seq![((code as u32) as char)] + t, j)),
                        None => None,
                    }
                }
            }
        } else {
            match unescape_char(s[i + 1]) {
                Some(c) => match spec_parse_string_body(s, i + 2) {
                    Some((t, j)) => Some((seq![c] + t, j)),
                    None => None,
                },
                None => None,
            }
        }
    } else if (s[i] as u32) < 32 {
        None
    } else {
        match spec_parse_string_body(s, i + 1) {
            Some((t, j)) => Some((seq![s[i]] + t, j)),
            None => None,
        }
    }
}

/// Parse a JSON string (with its quotes) starting exactly at `i`.
pub open spec fn spec_parse_string_at(s: Seq<char>, i: int) -> Option<(Seq<char>, int)> {
    if 0 <= i < s.len() && s[i] == '"' {
        spec_parse_string_body(s, i + 1)
    } else {
        None
    }
}

pub proof fn lemma_string_body_advances(s: Seq<char>, i: int)
    requires
        0 <= i <= s.len(),
    ensures
        spec_parse_string_body(s, i) matches Some(r) ==> i < r.1 <= s.len(),
    decreases s.len() - i,
{
    if i >= s.len() {
    } else if s[i] == '"' {
    } else if s[i] == '\\' {
        if i + 2 > s.len() {
        } else if s[i + 1] == 'u' {
            if i + 6 <= s.len() {
                lemma_string_body_advances(s, i + 6);
                if i + 12 <= s.len() {
                    lemma_string_body_advances(s, i + 12);
                }
            }
        } else {
            lemma_string_body_advances(s, i + 2);
        }
    } else if (s[i] as u32) < 32 {
    } else {
        lemma_string_body_advances(s, i + 1);
    }
}

/// Parse a quoted JSON string at `i`, exactly as `spec_parse_string_at`.
pub fn parse_string_at(s: &Vec<char>, start: usize) -> (r: Option<(Vec<char>, usize)>)
    requires
        start <= s@.len(),
    ensures
        match r {
            Some(t) => spec_parse_string_at(s@, start as int) == Some((t.0@, t.1 as int)) && start
                < t.1 <= s@.len(),
            None => spec_parse_string_at(s@, start as int) is None,
        },
{
    if start >= s.len() || s[start] != '"' {
        return None;
    }
    let mut i: usize = start + 1;
    let mut acc: Vec<char> = Vec::new();
    proof {
        lemma_string_body_advances(s@, start + 1);
    }
    while i < s.len()
        invariant
            start + 1 <= i <= s.len(),
            start < s@.len(),
            s@[start as int] == '"',
            spec_parse_string_body(s@, start + 1) == (match spec_parse_string_body(s@, i as int) {
                Some(r) => Some((acc@ + r.0, r.1)),
                None => None::<(Seq<char>, int)>,
            }),
        decreases s@.len() - i,
    {
        let ghost old_i = i as int;
        let ghost old_acc = acc@;
        let c = s[i];
        if c == '"' {
            proof {
                assert(spec_parse_string_body(s@, old_i) == Some(
                    (Seq::<char>::empty(), old_i + 1),
                ));
                assert(old_acc + Seq::<char>::empty() =~= old_acc);
                lemma_string_body_advances(s@, start + 1);
            }
            return Some((acc, i + 1));
        } else if c == '\\' {
            if s.len() - i < 2 {
                return None;
            }
            let e = s[i + 1];
            if e == 'u' {
                if s.len() - i < 6 {
                    return None;
                }
                let h0 = hex_digit(s[i + 2]);
                let h1 = hex_digit(s[i + 3]);
                let h2 = hex_digit(s[i + 4]);
                let h3 = hex_digit(s[i + 5]);
                if h0.is_none() || h1.is_none() || h2.is_none() || h3.is_none() {
                    return None;
                }
                let code: u32 = (h0.unwrap() as u32) * 4096 + (h1.unwrap() as u32) * 256 + (
                h2.unwrap() as u32) * 16 + (h3.unwrap() as u32);
                let ghost code_spec = hex_val(s@[old_i + 2]) * 4096 + hex_val(s@[old_i + 3]) * 256
                    + hex_val(s@[old_i + 4]) * 16 + hex_val(s@[old_i + 5]);
                assert(code as int == code_spec);
                assert(code <= 0xFFFF);
                if 0xD800 <= code && code < 0xDC00 {
                    if s.len() - i < 12 {
                        return None;
                    }
                    if !(s[i + 6] == '\\' && s[i + 7] == 'u') {
                        return None;
                    }
                    let l0 = hex_digit(s[i + 8]);
                    let l1 = hex_digit(s[i + 9]);
                    let l2 = hex_digit(s[i + 10]);
                    let l3 = hex_digit(s[i + 11]);
                    if l0.is_none() || l1.is_none() || l2.is_none() || l3.is_none() {
                        return None;
                    }
                    let lo: u32 = (l0.unwrap() as u32) * 4096 + (l1.unwrap() as u32) * 256 + (
                    l2.unwrap() as u32) * 16 + (l3.unwrap() as u32);
                    let ghost lo_spec = hex_val(s@[old_i + 8]) * 4096 + hex_val(s@[old_i + 9])
                        * 256 + hex_val(s@[old_i + 10]) * 16 + hex_val(s@[old_i + 11]);
                    assert(lo as int == lo_spec);
                    if !(0xDC00 <= lo && lo < 0xE000) {
                        return None;
                    }
                    let cp: u32 = 0x10000 + (code - 0xD800) * 1024 + (lo - 0xDC00);
                    assert(0x10000 <= cp <= 0x10FFFF);
                    if let Some(ch) = char_from_u32(cp) {
                        acc.push(ch);
                        i += 12;
                        proof {
                            assert(spec_parse_string_body(s@, old_i) == (
                            match spec_parse_string_body(s@, old_i + 12) {
                                Some(r) => Some((seq![ch] + r.0, r.1)),
                                None => None::<(Seq<char>, int)>,
                            }));
                            if let Some(r) = spec_parse_string_body(s@, i as int) {
                                assert(old_acc + (seq![ch] + r.0) =~= acc@ + r.0);
                            }
                        }
                    } else {
                        assert(false);
                        return None;
                    }
                } else if 0xDC00 <= code && code < 0xE000 {
                    return None;
                } else {
                    assert(code < 0xD800 || 0xE000 <= code);
                    if let Some(ch) = char_from_u32(code) {
                        acc.push(ch);
                        i += 6;
                        proof {
                            assert(spec_parse_string_body(s@, old_i) == (
                            match spec_parse_string_body(s@, old_i + 6) {
                                Some(r) => Some((seq![ch] + r.0, r.1)),
                                None => None::<(Seq<char>, int)>,
                            }));
                            if let Some(r) = spec_parse_string_body(s@, i as int) {
                                assert(old_acc + (seq![ch] + r.0) =~= acc@ + r.0);
                            }
                        }
                    } else {
                        assert(false);
                        return None;
                    }
                }
            } else {
                let m: Option<char> = if e == '"' {
                    Some('"')
                } else if e == '\\' {
                    Some('\\')
                } else if e == '/' {
                    Some('/')
                } else if e == 'b' {
                    Some('\u{8}')
                } else if e == 'f' {
                    Some('\u{c}')
                } else if e == 'n' {
                    Some('\n')
                } else if e == 'r' {
                    Some('\r')
                } else if e == 't' {
                    Some('\t')
                } else {
                    None
                };
                assert(m == unescape_char(s@[old_i + 1]));
                match m {
                    Some(ch) => {
                        acc.push(ch);
                        i += 2;
                        proof {
                            assert(spec_parse_string_body(s@, old_i) == (
                            match spec_parse_string_body(s@, old_i + 2) {
                                Some(r) => Some((seq![ch] + r.0, r.1)),
                                None => None::<(Seq<char>, int)>,
                            }));
                            if let Some(r) = spec_parse_string_body(s@, i as int) {
                                assert(old_acc + (seq![ch] + r.0) =~= acc@ + r.0);
                            }
                        }
                    },
                    None => {
                        return None;
                    },
                }
            }
        } else if (c as u32) < 32 {
            return None;
        } else {
            acc.push(c);
            i += 1;
            proof {
                assert(spec_parse_string_body(s@, old_i) == (match spec_parse_string_body(
                    s@,
                    old_i + 1,
                ) {
                    Some(r) => Some((seq![c] + r.0, r.1)),
                    None => None::<(Seq<char>, int)>,
                }));
                if let Some(r) = spec_parse_string_body(s@, i as int) {
                    assert(old_acc + (seq![c] + r.0) =~= acc@ + r.0);
                }
            }
        }
    }
    None
}

/// First index at or after `i` holding a non-digit character.
pub open spec fn digit_run_end(s: Seq<char>, i: int) -> int
    decreases s.len() - i
        when 0 <= i <= s.len()
{
    if i < s.len() && is_digit(s[i]) {
        digit_run_end(s, i + 1)
    } else {
        i
    }
}

pub proof fn lemma_digit_run_bounds(s: Seq<char>, i: int)
    requires
        0 <= i <= s.len(),
    ensures
        i <= digit_run_end(s, i) <= s.len(),
    decreases s.len() - i,
{
    if i < s.len() && is_digit(s[i]) {
        lemma_digit_run_bounds(s, i + 1);
    }
}

/// Parse a run of decimal digits at `i` as an unsigned 64-bit integer:
/// the digits' value and the index after the run.  `None` when no digit
/// stands at `i` or the value exceeds `u64::MAX`.
pub open spec fn spec_parse_u64_at(s: Seq<char>, i: int) -> Option<(int, int)> {
    let j: int = digit_run_end(s, i);
    if j == i {
        None
    } else {
        let v: int = digits_val(s.subrange(i, j));
        if v > u64::MAX {
            None
        } else {
            Some((v, j))
        }
    }
}

proof fn lemma_digits_val_append(u: Seq<char>, w: Seq<char>)
    ensures
        digits_val(u + w) == digits_val(u) * pow10(w.len()) + digits_val(w),
    decreases w.len(),
{
    if w.len() == 0 {
        assert(u + w =~= u);
        assert(digits_val(u) * 1 == digits_val(u));
    } else {
        lemma_digits_val_append(u, w.drop_last());
        assert((u + w).drop_last() =~= u + w.drop_last());
        assert((u + w).last() == w.last());
        let a: int = digits_val(u);
        let p: int = pow10((w.len() - 1) as nat);
        assert((a * p + digits_val(w.drop_last())) * 10 == a * (10 * p) + digits_val(w.drop_last())
            * 10) by (nonlinear_arith);
        assert(pow10(w.len()) == 10 * p);
    }
}

proof fn lemma_digits_val_nonneg(s: Seq<char>)
    ensures
        all_digits(s) ==> digits_val(s) >= 0,
    decreases s.len(),
{
    if s.len() > 0 {
        assert(all_digits(s) ==> all_digits(s.drop_last())) by {
            assert(forall|i: int|
                0 <= i < s.len() - 1 ==> s.drop_last()[i] == #[trigger] s[i]);
        }
        lemma_digits_val_nonneg(s.drop_last());
    }
}

/// Parse a digit run at `i` as a `u64`, exactly as `spec_parse_u64_at`.
pub fn parse_u64_at(s: &Vec<char>, start: usize) -> (r: Option<(u64, usize)>)
    requires
        start <= s@.len(),
    ensures
        match r {
            Some(t) => spec_parse_u64_at(s@, start as int) == Some((t.0 as int, t.1 as int))
                && start < t.1 <= s@.len(),
            None => spec_parse_u64_at(s@, start as int) is None,
        },
{
    proof {
        lemma_digit_run_bounds(s@, start as int);
    }
    let ghost jend = digit_run_end(s@, start as int);
    // find the end of the digit run
    let mut j: usize = start;
    while j < s.len() && '0' <= s[j] && s[j] <= '9'
        invariant
            start <= j <= s.len(),
            digit_run_end(s@, start as int) == digit_run_end(s@, j as int),
        decreases s@.len() - j,
    {
        j += 1;
    }
    assert(j as int == jend);
    if j == start {
        return None;
    }
    let ghost run = s@.subrange(start as int, jend);
    proof {
        assert(all_digits(run)) by {
            assert forall|k: int| 0 <= k < run.len() implies is_digit(#[trigger] run[k]) by {
                lemma_digit_run_bounds(s@, start as int);
                assert(run[k] == s@[start + k]);
                lemma_digit_run_prefix(s@, start as int, start + k);
            }
        }
    }
    // accumulate the value with overflow checks
    let mut val: u64 = 0;
    let mut k: usize = start;
    while k < j
        invariant
            start <= k <= j <= s.len(),
            j as int == digit_run_end(s@, start as int),
            run == s@.subrange(start as int, j as int),
            all_digits(run),
            val as int == digits_val(s@.subrange(start as int, k as int)),
        decreases j - k,
    {
        let c = s[k];
        proof {
            assert(run[k - start] == s@[k as int]);
            assert(is_digit(s@[k as int]));
        }
        let d: u64 = ((c as u32) - 48) as u64;
        assert(d as int == digit_val(s@[k as int]));
        let m = val.checked_mul(10);
        if m.is_none() {
            proof {
                lemma_u64_digits_overflow(s@, start as int, k as int, j as int, val as int, 10 * (
                val as int));
            }
            return None;
        }
        let a = m.unwrap().checked_add(d);
        if a.is_none() {
            proof {
                lemma_u64_digits_overflow(s@, start as int, k as int, j as int, val as int, 10 * (
                val as int) + d as int);
            }
            return None;
        }
        val = a.unwrap();
        proof {
            assert(s@.subrange(start as int, k + 1).drop_last() =~= s@.subrange(
                start as int,
                k as int,
            ));
            assert(s@.subrange(start as int, k + 1).last() == s@[k as int]);
        }
        k += 1;
    }
    proof {
        assert(s@.subrange(start as int, k as int) == run);
    }
    Some((val, j))
}

proof fn lemma_digit_run_prefix(s: Seq<char>, i: int, k: int)
    requires
        0 <= i <= k < digit_run_end(s, i),
        i <= s.len(),
    ensures
        is_digit(s[k]),
    decreases k - i,
{
    lemma_digit_run_bounds(s, i);
    if i < s.len() && is_digit(s[i]) {
        if k > i {
            lemma_digit_run_prefix(s, i + 1, k);
        }
    }
}

/// When the value of a strict prefix of the digit run already exceeds
/// `u64::MAX` at the next step, the whole run's value exceeds it too.
proof fn lemma_u64_digits_overflow(s: Seq<char>, i: int, k: int, j: int, prefix: int, next: int)
    requires
        0 <= i <= k < j <= s.len(),
        j == digit_run_end(s, i),
        all_digits(s.subrange(i, j)),
        prefix == digits_val(s.subrange(i, k)),
        next > u64::MAX,
        next <= 10 * prefix + digit_val(s[k]),
        is_digit(s[k]),
    ensures
        spec_parse_u64_at(s, i) is None,
{
    let run = s.subrange(i, j);
    let head = s.subrange(i, k + 1);
    let tail = s.subrange(k + 1, j);
    assert(head =~= s.subrange(i, k) + seq![s[k]]);
    assert(head.drop_last() =~= s.subrange(i, k));
    assert(head.last() == s[k]);
    assert(digits_val(head) == prefix * 10 + digit_val(s[k]));
    assert(run =~= head + tail);
    lemma_digits_val_append(head, tail);
    assert forall|q: int| 0 <= q < tail.len() implies is_digit(#[trigger] tail[q]) by {
        assert(tail[q] == s[k + 1 + q]);
        assert(run[k + 1 - i + q] == s[k + 1 + q]);
        assert(is_digit(run[k + 1 - i + q]));
    }
    lemma_digits_val_nonneg(tail);
    crate::decimal::lemma_pow10_pos(tail.len());
    let hv: int = digits_val(head);
    let pt: int = pow10(tail.len());
    assert(hv * pt >= hv) by (nonlinear_arith)
        requires
            hv > u64::MAX,
            pt >= 1,
    ;
    assert(digits_val(run) > u64::MAX);
}

/// Hexadecimal digit character (lower case) for a value in `[0, 16)`.
pub open spec fn hex_char(d: int) -> char {
    if d < 10 {
        (((48 + d) as u8) as char)
    } else {
        (((87 + d) as u8) as char)
    }
}

/// JSON escape of one character: quotes and backslashes are escaped, other
/// control characters take the `\u00XX` form, everything else stands as is.
pub open spec fn escape_char(c: char) -> Seq<char> {
    if c == '"' {
        seq!['\\', '"']
    } else if c == '\\' {
        seq!['\\', '\\']
    } else if (c as u32) < 32 {
        seq!['\\', 'u', '0', '0', hex_char(((c as u32) / 16) as int), hex_char(((c as u32) % 16) as int)]
    } else {
        seq![c]
    }
}

/// JSON escape of a whole string.
pub open spec fn spec_escape(s: Seq<char>) -> Seq<char>
    decreases s.len(),
{
    if s.len() == 0 {
        Seq::<char>::empty()
    } else {
        spec_escape(s.drop_last()) + escape_char(s.last())
    }
}

/// A quoted, escaped JSON string.
pub open spec fn spec_render_string(s: Seq<char>) -> Seq<char> {
    seq!['"'] + spec_escape(s) + seq!['"']
}

/// Append the JSON escape of `s` to `out`.
fn escape_append(out: &mut Vec<char>, s: &Vec<char>)
    ensures
        final(out)@ == old(out)@ + spec_escape(s@),
{
    let mut i: usize = 0;
    proof {
        assert(s@.take(0) =~= Seq::<char>::empty());
        assert(old(out)@ + Seq::<char>::empty() =~= old(out)@);
        assert(spec_escape(s@.take(0)) == Seq::<char>::empty());
    }
    while i < s.len()
        invariant
            0 <= i <= s.len(),
            out@ == old(out)@ + spec_escape(s@.take(i as int)),
        decreases s@.len() - i,
    {
        let ghost pre = out@;
        let c = s[i];
        if c == '"' {
            out.push('\\');
            out.push('"');
        } else if c == '\\' {
            out.push('\\');
            out.push('\\');
        } else if (c as u32) < 32 {
            out.push('\\');
            out.push('u');
            out.push('0');
            out.push('0');
            let d: u32 = c as u32;
            let hi: u32 = d / 16;
            let lo: u32 = d % 16;
            let hc: char = if hi < 10 {
                ((48 + hi) as u8) as char
            } else {
                ((87 + hi) as u8) as char
            };
            let lc: char = if lo < 10 {
                ((48 + lo) as u8) as char
            } else {
                ((87 + lo) as u8) as char
            };
            out.push(hc);
            out.push(lc);
            assert(hi == (c as u32) / 16 && lo == (c as u32) % 16);
            assert(hc == hex_char(((c as u32) / 16) as int) && lc == hex_char(
                ((c as u32) % 16) as int,
            ));
        } else {
            out.push(c);
        }
        proof {
            assert(out@ =~= pre + escape_char(s@[i as int]));
            assert(s@.take(i + 1).drop_last() =~= s@.take(i as int));
            assert(s@.take(i + 1).last() == s@[i as int]);
            assert(spec_escape(s@.take(i + 1)) == spec_escape(s@.take(i as int)) + escape_char(
                s@[i as int],
            ));
            assert(old(out)@ + spec_escape(s@.take(i as int)) + escape_char(s@[i as int]) =~= old(
                out,
            )@ + spec_escape(s@.take(i + 1)));
        }
        i += 1;
    }
    proof {
        assert(s@.take(s@.len() as int) =~= s@);
    }
}

/// Append the quoted, escaped JSON form of `s` to `out`.
pub fn render_string_into(out: &mut Vec<char>, s: &Vec<char>)
    ensures
        final(out)@ == old(out)@ + spec_render_string(s@),
{
    out.push('"');
    escape_append(out, s);
    out.push('"');
    proof {
        assert(old(out)@.push('"') =~= old(out)@ + seq!['"']);
        assert(old(out)@ + seq!['"'] + spec_escape(s@) + seq!['"'] =~= old(out)@
            + spec_render_string(s@));
    }
}

/// Decimal digits of a non-negative integer, most significant first.
pub open spec fn spec_u64_digits(n: int) -> Seq<char>
    decreases n
        when n >= 0
{
    if n < 10 {
        seq![(((48 + n) as u8) as char)]
    } else {
        spec_u64_digits(n / 10) + seq![(((48 + n % 10) as u8) as char)]
    }
}

/// Append the decimal digits of `n` to `out`.
pub fn push_u64(out: &mut Vec<char>, n: u64)
    ensures
        final(out)@ == old(out)@ + spec_u64_digits(n as int),
    decreases n,
{
    if n < 10 {
        let d: char = ((48 + (n as u32)) as u8) as char;
        out.push(d);
        proof {
            assert(old(out)@.push(d) =~= old(out)@ + spec_u64_digits(n as int));
        }
    } else {
        push_u64(out, n / 10);
        let d: char = ((48 + ((n % 10) as u32)) as u8) as char;
        out.push(d);
        proof {
            assert(d == (((48 + (n as int) % 10) as u8) as char));
            assert(old(out)@ + spec_u64_digits(n as int / 10) + seq![d] =~= old(out)@
                + spec_u64_digits(n as int));
        }
    }
}

/// The decimal rendering of `n` is all digits and reads back as `n`.
pub proof fn lemma_u64_digits_value(n: int)
    requires
        n >= 0,
    ensures
        all_digits(spec_u64_digits(n)),
        digits_val(spec_u64_digits(n)) == n,
    decreases n,
{
    if n < 10 {
        let d = spec_u64_digits(n);
        assert(d.len() == 1);
        assert(d[0] == (((48 + n) as u8) as char));
        assert(is_digit(d[0]));
        assert(d.drop_last() =~= Seq::<char>::empty());
        assert(digits_val(d) == digits_val(d.drop_last()) * 10 + digit_val(d.last()));
        assert(digits_val(Seq::<char>::empty()) == 0);
        assert(d.last() == d[0]);
        assert(digits_val(d) == digit_val(d[0]));
    } else {
        lemma_u64_digits_value(n / 10);
        let u = spec_u64_digits(n / 10);
        let c = (((48 + n % 10) as u8) as char);
        assert(is_digit(c));
        let d = spec_u64_digits(n);
        assert(d == u + seq![c]);
        assert(d.drop_last() =~= u);
        assert(d.last() == c);
        assert forall|k: int| 0 <= k < d.len() implies is_digit(#[trigger] d[k]) by {
            if k < u.len() {
                assert(d[k] == u[k]);
            } else {
                assert(d[k] == c);
            }
        }
        assert(digits_val(d) == digits_val(u) * 10 + digit_val(c));
        assert(digit_val(c) == n % 10);
    }
}


proof fn lemma_body_shift(pre: Seq<char>, s: Seq<char>, k: int)
    requires
        0 <= k <= s.len(),
    ensures
        spec_parse_string_body(pre + s, pre.len() + k) == (match spec_parse_string_body(s, k) {
            Some(r) => Some((r.0, pre.len() + r.1)),
            None => None::<(Seq<char>, int)>,
        }),
    decreases s.len() - k,
{
    let b = pre + s;
    let i = pre.len() + k;
    assert(b.len() == pre.len() + s.len());
    assert forall|m: int| 0 <= m < s.len() implies b[pre.len() + m] == s[m] by {}
    if k >= s.len() {
    } else if s[k] == '"' {
    } else if s[k] == '\\' {
        if k + 2 > s.len() {
        } else if s[k + 1] == 'u' {
            if k + 6 > s.len() {
            } else if !(is_hex(s[k + 2]) && is_hex(s[k + 3]) && is_hex(s[k + 4]) && is_hex(
                s[k + 5],
            )) {
            } else {
                let code = hex_val(s[k + 2]) * 4096 + hex_val(s[k + 3]) * 256 + hex_val(s[k + 4])
                    * 16 + hex_val(s[k + 5]);
                if 0xD800 <= code && code < 0xDC00 {
                    if k + 12 > s.len() {
                    } else {
                        lemma_body_shift(pre, s, k + 12);
                    }
                } else if 0xDC00 <= code && code < 0xE000 {
                } else {
                    lemma_body_shift(pre, s, k + 6);
                }
            }
        } else {
            lemma_body_shift(pre, s, k + 2);
        }
    } else if (s[k] as u32) < 32 {
    } else {
        lemma_body_shift(pre, s, k + 1);
    }
}

proof fn lemma_escape_append(a: Seq<char>, b: Seq<char>)
    ensures
        spec_escape(a + b) == spec_escape(a) + spec_escape(b),
    decreases b.len(),
{
    if b.len() == 0 {
        assert(a + b =~= a);
        assert(spec_escape(b) == Seq::<char>::empty());
        assert(spec_escape(a) + Seq::<char>::empty() =~= spec_escape(a));
    } else {
        lemma_escape_append(a, b.drop_last());
        assert((a + b).drop_last() =~= a + b.drop_last());
        assert((a + b).last() == b.last());
        assert(spec_escape(a) + spec_escape(b.drop_last()) + escape_char(b.last()) =~= spec_escape(
            a,
        ) + (spec_escape(b.drop_last()) + escape_char(b.last())));
    }
}

proof fn lemma_hex_char(d: int)
    requires
        0 <= d < 16,
    ensures
        is_hex(hex_char(d)),
        hex_val(hex_char(d)) == d,
{
    if d < 10 {
        assert(hex_char(d) == (((48 + d) as u8) as char));
        assert('0' <= hex_char(d) && hex_char(d) <= '9');
        assert(hex_char(d) as int == 48 + d);
    } else {
        assert(hex_char(d) == (((87 + d) as u8) as char));
        assert('a' <= hex_char(d) && hex_char(d) <= 'f');
        assert(hex_char(d) as int == 87 + d);
    }
}

/// Parsing an escaped string body followed by its closing quote recovers
/// exactly the original characters.
#[verifier::rlimit(80)]
#[verifier::spinoff_prover]
proof fn lemma_parse_escaped(s: Seq<char>, rest: Seq<char>)
    ensures
        spec_parse_string_body(spec_escape(s) + (seq!['"'] + rest), 0) == Some(
            (s, spec_escape(s).len() + 1int),
        ),
    decreases s.len(),
{
    let b = spec_escape(s) + (seq!['"'] + rest);
    if s.len() == 0 {
        assert(spec_escape(s) == Seq::<char>::empty());
        assert(b =~= seq!['"'] + rest);
        assert(b[0] == '"');
        assert(spec_parse_string_body(b, 0) == Some((Seq::<char>::empty(), 1int)));
        assert(s =~= Seq::<char>::empty());
    } else {
        let c = s[0];
        let s1 = s.skip(1);
        assert(s =~= seq![c] + s1);
        lemma_escape_append(seq![c], s1);
        assert(spec_escape(seq![c]) == escape_char(c)) by {
            assert(seq![c].drop_last() =~= Seq::<char>::empty());
            assert(seq![c].last() == c);
            assert(spec_escape(Seq::<char>::empty()) == Seq::<char>::empty());
            assert(Seq::<char>::empty() + escape_char(c) =~= escape_char(c));
        }
        let tail = spec_escape(s1) + (seq!['"'] + rest);
        lemma_parse_escaped(s1, rest);
        let ec = escape_char(c);
        assert(b =~= ec + tail);
        lemma_body_shift(ec, tail, 0);
        assert(spec_parse_string_body(b, ec.len() as int) == Some(
            (s1, ec.len() + spec_escape(s1).len() + 1int),
        ));
        assert forall|m: int| 0 <= m < tail.len() implies b[ec.len() + m] == tail[m] by {}
        assert forall|m: int| 0 <= m < ec.len() implies b[m] == ec[m] by {}
        if c == '"' {
            assert(ec == seq!['\\', '"']);
            assert(b[0] == '\\' && b[1] == '"');
            assert(b.len() >= 2);
            assert(unescape_char(b[1]) == Some('"'));
            assert(spec_parse_string_body(b, 0) == Some((seq![c] + s1, ec.len() + spec_escape(
                s1,
            ).len() + 1int)));
        } else if c == '\\' {
            assert(ec == seq!['\\', '\\']);
            assert(b[0] == '\\' && b[1] == '\\');
            assert(unescape_char(b[1]) == Some('\\'));
            assert(spec_parse_string_body(b, 0) == Some((seq![c] + s1, ec.len() + spec_escape(
                s1,
            ).len() + 1int)));
        } else if (c as u32) < 32 {
            let hi = ((c as u32) / 16) as int;
            let lo = ((c as u32) % 16) as int;
            assert(ec == seq!['\\', 'u', '0', '0', hex_char(hi), hex_char(lo)]);
            assert(0 <= hi < 2 && 0 <= lo < 16) by {
                assert((c as u32) < 32);
            }
            lemma_hex_char(hi);
            lemma_hex_char(lo);
            assert(b[0] == '\\' && b[1] == 'u' && b[2] == '0' && b[3] == '0');
            assert(b[4] == hex_char(hi) && b[5] == hex_char(lo));
            assert(is_hex('0') && hex_val('0') == 0);
            let code = hex_val(b[2]) * 4096 + hex_val(b[3]) * 256 + hex_val(b[4]) * 16 + hex_val(
                b[5],
            );
            assert(code == hi * 16 + lo);
            assert(hi * 16 + lo == c as u32) by {
                assert(16 * ((c as u32) / 16) + (c as u32) % 16 == (c as u32));
            }
            assert(code < 32);
            assert(((code as u32) as char) == c) by {
                assert(code as u32 == c as u32);
                vstd::utf8::char_u32_cast(c, (code as u32));
            }
            assert(spec_parse_string_body(b, 0) == Some((seq![c] + s1, ec.len() + spec_escape(
                s1,
            ).len() + 1int)));
        } else {
            assert(ec == seq![c]);
            assert(b[0] == c);
            assert(c != '"' && c != '\\' && !((c as u32) < 32));
            assert(spec_parse_string_body(b, 0) == Some((seq![c] + s1, ec.len() + spec_escape(
                s1,
            ).len() + 1int)));
        }
        assert(spec_escape(s).len() == ec.len() + spec_escape(s1).len());
    }
}

/// A rendered string standing at `pre.len()` inside a larger text parses
/// back to exactly the original characters.
pub proof fn lemma_parse_rendered_string(x: Seq<char>, pre: Seq<char>, rest: Seq<char>)
    ensures
        spec_parse_string_at(pre + (spec_render_string(x) + rest), pre.len() as int) == Some(
            (x, pre.len() + spec_render_string(x).len() as int),
        ),
{
    let b = pre + (spec_render_string(x) + rest);
    let inner = spec_escape(x) + (seq!['"'] + rest);
    assert(b =~= (pre + seq!['"']) + inner);
    assert(b[pre.len() as int] == '"') by {
        assert(spec_render_string(x)[0] == '"');
    }
    assert(pre.len() < b.len());
    lemma_parse_escaped(x, rest);
    lemma_body_shift(pre + seq!['"'], inner, 0);
    assert(spec_parse_string_body(b, pre.len() + 1 as int) == Some(
        (x, pre.len() + 1 + spec_escape(x).len() + 1int),
    ));
    assert(spec_render_string(x).len() == spec_escape(x).len() + 2);
}

/// A digit run bounded on the right by a non-digit (or the end) stops
/// exactly there.
pub proof fn lemma_digit_run_exact(s: Seq<char>, i: int, e: int)
    requires
        0 <= i <= e <= s.len(),
        forall|k: int| i <= k < e ==> is_digit(#[trigger] s[k]),
        e == s.len() || !is_digit(s[e]),
    ensures
        digit_run_end(s, i) == e,
    decreases e - i,
{
    if i < e {
        lemma_digit_run_exact(s, i + 1, e);
    }
}

} // verus!
