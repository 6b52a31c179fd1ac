//! Exact decimal parameters.
//!
//! The generation parameters (`temperature`, `top_p`, `penalty_score`) arrive
//! as decimal text and are bounded by small closed or half-open intervals.
//! They are kept as signed sequences of decimal digits, so parsing and the
//! range checks are exact: a value is compared against an integer bound `n`
//! by comparing its scaled numerator with `n` times its denominator.

use vstd::prelude::*;

verus! {

pub open spec fn is_digit(c: char) -> bool {
    '0' <= c && c <= '9'
}

pub open spec fn all_digits(s: Seq<char>) -> bool {
    forall|i: int| 0 <= i < s.len() ==> is_digit(#[trigger] s[i])
}

pub open spec fn digit_val(c: char) -> int {
    c as int - '0' as int
}

/// Value of a digit string, most significant digit first.
pub open spec fn digits_val(s: Seq<char>) -> int
    decreases s.len(),
{
    if s.len() == 0 {
        0
    } else {
        digits_val(s.drop_last()) * 10 + digit_val(s.last())
    }
}

pub open spec fn pow10(k: nat) -> int
    decreases k,
{
    if k == 0 {
        1
    } else {
        10 * pow10((k - 1) as nat)
    }
}

/// A decimal number: optional sign, integer digits, optional fraction digits
/// (empty when the token had no fractional part).
pub struct Decimal {
    pub neg: bool,
    pub int_digits: Vec<char>,
    pub frac_digits: Vec<char>,
}

pub struct DecimalV {
    pub neg: bool,
    pub int_digits: Seq<char>,
    pub frac_digits: Seq<char>,
}

impl View for Decimal {
    type V = DecimalV;

    open spec fn view(&self) -> DecimalV {
        DecimalV { neg: self.neg, int_digits: self.int_digits@, frac_digits: self.frac_digits@ }
    }
}

pub open spec fn dec_wf(d: DecimalV) -> bool {
    d.int_digits.len() > 0 && all_digits(d.int_digits) && all_digits(d.frac_digits)
}

/// Scaled numerator: the value of `d` times `dec_den(d)`.
pub open spec fn dec_num(d: DecimalV) -> int {
    (if d.neg {
        -1
    } else {
        1
    }) * (digits_val(d.int_digits) * pow10(d.frac_digits.len()) + digits_val(d.frac_digits))
}

pub open spec fn dec_den(d: DecimalV) -> int {
    pow10(d.frac_digits.len())
}

/// Index of the first `'.'` in `s`, or `s.len()` when there is none.
pub open spec fn first_dot(s: Seq<char>) -> int
    decreases s.len(),
{
    if s.len() == 0 {
        0
    } else if s[0] == '.' {
        0
    } else {
        1 + first_dot(s.skip(1))
    }
}

/// The decimal-token grammar: an optional `'-'` or `'+'`, one or more
/// digits, then optionally a `'.'` and one or more digits.
pub open spec fn spec_parse_decimal(s: Seq<char>) -> Option<DecimalV> {
    let neg = s.len() > 0 && s[0] == '-';
    let body = if s.len() > 0 && (s[0] == '-' || s[0] == '+') {
        s.skip(1)
    } else {
        s
    };
    let dp: int = first_dot(body);
    if dp == body.len() {
        if body.len() > 0 && all_digits(body) {
            Some(DecimalV { neg, int_digits: body, frac_digits: Seq::<char>::empty() })
        } else {
            None
        }
    } else {
        let ip = body.take(dp);
        let fp = body.skip(dp + 1);
        if ip.len() > 0 && fp.len() > 0 && all_digits(ip) && all_digits(fp) {
            Some(DecimalV { neg, int_digits: ip, frac_digits: fp })
        } else {
            None
        }
    }
}

proof fn lemma_first_dot(s: Seq<char>)
    ensures
        0 <= first_dot(s) <= s.len(),
        first_dot(s) < s.len() ==> s[first_dot(s)] == '.',
        forall|j: int| 0 <= j < first_dot(s) ==> s[j] != '.',
    decreases s.len(),
{
    if s.len() == 0 {
    } else if s[0] == '.' {
    } else {
        lemma_first_dot(s.skip(1));
        assert forall|j: int| 0 <= j < first_dot(s) implies s[j] != '.' by {
            if j > 0 {
                assert(s.skip(1)[j - 1] != '.');
            }
        }
    }
}

/// Copy `s[from..to]` into a fresh vector.
pub fn copy_range(s: &Vec<char>, from: usize, to: usize) -> (r: Vec<char>)
    requires
        from <= to <= s@.len(),
    ensures
        r@ == s@.subrange(from as int, to as int),
{
    let mut r: Vec<char> = Vec::new();
    let mut i: usize = from;
    while i < to
        invariant
            from <= i <= to <= s.len(),
            r@ == s@.subrange(from as int, i as int),
        decreases to - i,
    {
        r.push(s[i]);
        assert(s@.subrange(from as int, i as int).push(s@[i as int]) =~= s@.subrange(
            from as int,
            i + 1,
        ));
        i += 1;
    }
    r
}

/// Are the characters of `s[from..to]` all decimal digits?
fn check_digits(s: &Vec<char>, from: usize, to: usize) -> (b: bool)
    requires
        from <= to <= s@.len(),
    ensures
        b == all_digits(s@.subrange(from as int, to as int)),
{
    let ghost sub = s@.subrange(from as int, to as int);
    let mut i: usize = from;
    while i < to
        invariant
            from <= i <= to <= s.len(),
            sub == s@.subrange(from as int, to as int),
            forall|k: int| 0 <= k < i - from ==> is_digit(#[trigger] sub[k]),
        decreases to - i,
    {
        let c = s[i];
        if !('0' <= c && c <= '9') {
            assert(sub[i - from] == c);
            assert(!all_digits(sub));
            return false;
        }
        assert(sub[i - from] == c);
        i += 1;
    }
    true
}

/// Parse a decimal token.  Returns the parsed number exactly when the token
/// matches the grammar of `spec_parse_decimal`, and `None` otherwise.
pub fn parse_decimal(s: &Vec<char>) -> (r: Option<Decimal>)
    ensures
        match r {
            Some(d) => spec_parse_decimal(s@) == Some(d@) && dec_wf(d@),
            None => spec_parse_decimal(s@) is None,
        },
{
    let mut start: usize = 0;
    let mut neg = false;
    if s.len() > 0 && (s[0] == '-' || s[0] == '+') {
        neg = s[0] == '-';
        start = 1;
    }
    let ghost body = if s@.len() > 0 && (s@[0] == '-' || s@[0] == '+') {
        s@.skip(1)
    } else {
        s@
    };
    proof {
        assert(body =~= s@.skip(start as int));
    }
    // find the first '.' in the body
    let mut dot: usize = start;
    while dot < s.len() && s[dot] != '.'
        invariant
            start <= dot <= s.len(),
            body == s@.skip(start as int),
            forall|k: int| start <= k < dot ==> s@[k] != '.',
        decreases s@.len() - dot,
    {
        dot += 1;
    }
    proof {
        lemma_first_dot(body);
        assert forall|j: int| 0 <= j < dot - start implies body[j] != '.' by {
            assert(body[j] == s@[start + j]);
        }
        if dot < s@.len() {
            assert(body[dot - start] == s@[dot as int]);
        }
        // first_dot(body) is exactly dot - start
        if first_dot(body) < dot - start {
            assert(body[first_dot(body)] == '.');
            assert(false);
        }
        if first_dot(body) > dot - start {
            assert(dot - start < body.len());
            assert(body[dot - start] != '.');
            assert(false);
        }
        assert(first_dot(body) == dot - start);
    }
    if dot == s.len() {
        // no fractional part
        if start < s.len() && check_digits(s, start, s.len()) {
            proof {
                assert(body =~= s@.subrange(start as int, s@.len() as int));
            }
            let int_digits = copy_range(s, start, s.len());
            let d = Decimal { neg, int_digits, frac_digits: Vec::new() };
            proof {
                assert(d@.frac_digits =~= Seq::<char>::empty());
                assert(spec_parse_decimal(s@) == Some(d@));
            }
            Some(d)
        } else {
            proof {
                assert(body =~= s@.subrange(start as int, s@.len() as int));
            }
            None
        }
    } else {
        // digits '.' digits
        let ip_ok = dot > start && check_digits(s, start, dot);
        let fp_ok = dot + 1 < s.len() && check_digits(s, dot + 1, s.len());
        proof {
            assert(body.take(dot - start) =~= s@.subrange(start as int, dot as int));
            assert(body.skip(dot - start + 1) =~= s@.subrange(dot + 1, s@.len() as int));
        }
        if ip_ok && fp_ok {
            let int_digits = copy_range(s, start, dot);
            let frac_digits = copy_range(s, dot + 1, s.len());
            let d = Decimal { neg, int_digits, frac_digits };
            assert(spec_parse_decimal(s@) == Some(d@));
            Some(d)
        } else {
            None
        }
    }
}

pub proof fn lemma_pow10_pos(k: nat)
    ensures
        pow10(k) >= 1,
    decreases k,
{
    if k > 0 {
        lemma_pow10_pos((k - 1) as nat);
    }
}

proof fn lemma_digits_val_bounds(s: Seq<char>)
    requires
        all_digits(s),
    ensures
        0 <= digits_val(s) < pow10(s.len()),
    decreases s.len(),
{
    if s.len() == 0 {
    } else {
        assert(all_digits(s.drop_last())) by {
            assert(forall|i: int|
                0 <= i < s.len() - 1 ==> s.drop_last()[i] == #[trigger] s[i]);
        }
        lemma_digits_val_bounds(s.drop_last());
        assert(is_digit(s.last()));
        assert(0 <= digit_val(s.last()) <= 9);
    }
}

proof fn lemma_digits_val_zero_iff(s: Seq<char>)
    requires
        all_digits(s),
    ensures
        (digits_val(s) == 0) == (forall|i: int| 0 <= i < s.len() ==> #[trigger] s[i] == '0'),
    decreases s.len(),
{
    if s.len() == 0 {
    } else {
        assert(all_digits(s.drop_last())) by {
            assert(forall|i: int|
                0 <= i < s.len() - 1 ==> s.drop_last()[i] == #[trigger] s[i]);
        }
        lemma_digits_val_zero_iff(s.drop_last());
        lemma_digits_val_bounds(s.drop_last());
        assert(is_digit(s.last()));
        if digits_val(s) == 0 {
            assert(digits_val(s.drop_last()) == 0 && digit_val(s.last()) == 0);
            assert forall|i: int| 0 <= i < s.len() implies #[trigger] s[i] == '0' by {
                if i < s.len() - 1 {
                    assert(s.drop_last()[i] == '0');
                } else {
                    assert(s.last() == '0');
                }
            }
        }
        if forall|i: int| 0 <= i < s.len() ==> #[trigger] s[i] == '0' {
            assert forall|i: int| 0 <= i < s.len() - 1 implies #[trigger] s.drop_last()[i]
                == '0' by {
                assert(s[i] == '0');
            }
            assert(s.last() == '0');
        }
    }
}

proof fn lemma_digits_val_skip_zero(s: Seq<char>)
    requires
        s.len() > 0,
        s[0] == '0',
    ensures
        digits_val(s.skip(1)) == digits_val(s),
    decreases s.len(),
{
    if s.len() == 1 {
        assert(s.skip(1) =~= Seq::<char>::empty());
        assert(digits_val(s) == digits_val(s.drop_last()) * 10 + digit_val(s.last()));
        assert(s.drop_last() =~= Seq::<char>::empty());
        assert(digit_val(s.last()) == 0);
    } else {
        lemma_digits_val_skip_zero(s.drop_last());
        assert(s.skip(1).drop_last() =~= s.drop_last().skip(1));
        assert(s.skip(1).last() == s.last());
    }
}

proof fn lemma_digits_val_lower(s: Seq<char>)
    requires
        all_digits(s),
        s.len() > 0,
        s[0] != '0',
    ensures
        digits_val(s) >= pow10((s.len() - 1) as nat),
    decreases s.len(),
{
    if s.len() == 1 {
        assert(s.drop_last() =~= Seq::<char>::empty());
        assert(digits_val(s) == digit_val(s[0]));
        assert(is_digit(s[0]));
        assert(digit_val(s[0]) >= 1);
    } else {
        assert(all_digits(s.drop_last())) by {
            assert(forall|i: int|
                0 <= i < s.len() - 1 ==> s.drop_last()[i] == #[trigger] s[i]);
        }
        assert(s.drop_last()[0] == s[0]);
        lemma_digits_val_lower(s.drop_last());
        assert(is_digit(s.last()));
        assert(digit_val(s.last()) >= 0);
        assert(pow10((s.len() - 1) as nat) == 10 * pow10((s.len() - 2) as nat));
        assert(digits_val(s.drop_last()) * 10 >= pow10((s.len() - 2) as nat) * 10);
    }
}

/// Class of the integer part: its value, saturated at 3.
fn int_class(v: &Vec<char>) -> (c: u8)
    requires
        all_digits(v@),
    ensures
        digits_val(v@) >= 3 ==> c == 3,
        digits_val(v@) < 3 ==> c as int == digits_val(v@),
        0 <= c <= 3,
{
    let mut z: usize = 0;
    proof {
        assert(v@.skip(0) =~= v@);
    }
    while z < v.len() && v[z] == '0'
        invariant
            0 <= z <= v.len(),
            all_digits(v@),
            digits_val(v@.skip(z as int)) == digits_val(v@),
        decreases v@.len() - z,
    {
        proof {
            assert(v@.skip(z as int)[0] == v@[z as int]);
            lemma_digits_val_skip_zero(v@.skip(z as int));
            assert(v@.skip(z as int).skip(1) =~= v@.skip(z + 1));
        }
        z += 1;
    }
    let ghost rest = v@.skip(z as int);
    proof {
        assert(all_digits(rest)) by {
            assert(forall|i: int|
                0 <= i < rest.len() ==> #[trigger] rest[i] == v@[z + i] && is_digit(v@[z + i]));
        }
        lemma_digits_val_bounds(rest);
    }
    if z == v.len() {
        proof {
            assert(rest =~= Seq::<char>::empty());
        }
        0
    } else if v.len() - z > 1 {
        proof {
            assert(rest[0] == v@[z as int]);
            lemma_digits_val_lower(rest);
            lemma_pow10_pos((rest.len() - 2) as nat);
            assert(pow10((rest.len() - 1) as nat) == 10 * pow10((rest.len() - 2) as nat));
        }
        3
    } else {
        proof {
            assert(rest.len() == 1);
            assert(rest.drop_last() =~= Seq::<char>::empty());
            assert(digits_val(rest.drop_last()) == 0);
            assert(rest.last() == rest[0]);
            assert(digits_val(rest) == digit_val(rest[0]));
            assert(rest[0] == v@[z as int]);
            assert(is_digit(v@[z as int]));
        }
        let c = v[z];
        assert(48 <= c as u32 <= 57);
        let d: u8 = (c as u32 - 48) as u8;
        assert(d as int == digit_val(v@[z as int]));
        if d >= 3 {
            3
        } else {
            d
        }
    }
}

/// Is the digit string all zeros (value zero)?
fn digits_zero(v: &Vec<char>) -> (b: bool)
    requires
        all_digits(v@),
    ensures
        b == (digits_val(v@) == 0),
{
    let mut i: usize = 0;
    let mut all_zero = true;
    while i < v.len()
        invariant
            0 <= i <= v.len(),
            all_digits(v@),
            all_zero == (forall|k: int| 0 <= k < i ==> #[trigger] v@[k] == '0'),
        decreases v@.len() - i,
    {
        if v[i] != '0' {
            all_zero = false;
        }
        i += 1;
    }
    proof {
        lemma_digits_val_zero_iff(v@);
    }
    all_zero
}

/// Case analysis relating the digit classes to the value comparisons the
/// range checks need.
proof fn lemma_dec_class(d: DecimalV, ic: int, fz: bool)
    requires
        dec_wf(d),
        digits_val(d.int_digits) >= 3 ==> ic == 3,
        digits_val(d.int_digits) < 3 ==> ic == digits_val(d.int_digits),
        fz == (digits_val(d.frac_digits) == 0),
    ensures
        (dec_num(d) > 0) == (!d.neg && (ic > 0 || !fz)),
        (dec_num(d) >= 0) == (!d.neg || (ic == 0 && fz)),
        (dec_num(d) >= dec_den(d)) == (!d.neg && ic >= 1),
        (dec_num(d) <= 1 * dec_den(d)) == (d.neg || ic < 1 || (ic == 1 && fz)),
        (dec_num(d) <= 2 * dec_den(d)) == (d.neg || ic < 2 || (ic == 2 && fz)),
{
    let ii: int = digits_val(d.int_digits);
    let ff: int = digits_val(d.frac_digits);
    let pp: int = pow10(d.frac_digits.len());
    lemma_digits_val_bounds(d.int_digits);
    lemma_digits_val_bounds(d.frac_digits);
    lemma_pow10_pos(d.frac_digits.len());
    assert((ii == 0 ==> ii * pp == 0) && (ii >= 1 ==> ii * pp >= pp) && (ii == 1 ==> ii * pp == pp)
        && (ii == 2 ==> ii * pp == 2 * pp) && (ii >= 2 ==> ii * pp >= 2 * pp) && (ii >= 3 ==> ii
        * pp >= 3 * pp) && ii * pp >= 0) by (nonlinear_arith)
        requires
            ii >= 0,
            pp >= 1,
    ;
    let x: int = ii * pp + ff;
    assert(dec_den(d) == pp);
    if d.neg {
        assert(dec_num(d) == -1 * x);
        assert(dec_num(d) <= 0);
        assert((dec_num(d) >= 0) == (x == 0));
        assert((x == 0) == (ii == 0 && ff == 0));
        assert((ic == 0 && fz) == (ii == 0 && ff == 0));
        assert(!(dec_num(d) > 0));
        assert(!(dec_num(d) >= pp));
        assert(dec_num(d) <= 1 * pp);
        assert(dec_num(d) <= 2 * pp);
    } else {
        assert(dec_num(d) == 1 * x);
        assert((ii > 0) == (ic > 0));
        assert((x > 0) == (ii > 0 || ff > 0));
        assert(ii == 0 ==> x < pp);
        assert((x >= pp) == (ii >= 1));
        assert((x <= 1 * pp) == (ii < 1 || (ii == 1 && ff == 0)));
        assert((x <= 2 * pp) == (ii < 2 || (ii == 2 && ff == 0)));
        assert((ii < 1) == (ic < 1));
        assert((ii == 1) == (ic == 1));
        assert((ii < 2) == (ic < 2));
        assert((ii == 2) == (ic == 2));
    }
}

impl Decimal {
    /// Is the value strictly greater than zero?
    pub fn gt_zero(&self) -> (b: bool)
        requires
            dec_wf(self@),
        ensures
            b == (dec_num(self@) > 0),
    {
        let ic: u8 = int_class(&self.int_digits);
        let fz = digits_zero(&self.frac_digits);
        proof {
            lemma_dec_class(self@, ic as int, fz);
        }
        !self.neg && (ic > 0 || !fz)
    }

    /// Is the value greater than or equal to zero?
    pub fn ge_zero(&self) -> (b: bool)
        requires
            dec_wf(self@),
        ensures
            b == (dec_num(self@) >= 0),
    {
        let ic: u8 = int_class(&self.int_digits);
        let fz = digits_zero(&self.frac_digits);
        proof {
            lemma_dec_class(self@, ic as int, fz);
        }
        !self.neg || (ic == 0 && fz)
    }

    /// Is the value greater than or equal to one?
    pub fn ge_one(&self) -> (b: bool)
        requires
            dec_wf(self@),
        ensures
            b == (dec_num(self@) >= dec_den(self@)),
    {
        let ic: u8 = int_class(&self.int_digits);
        let fz = digits_zero(&self.frac_digits);
        proof {
            lemma_dec_class(self@, ic as int, fz);
        }
        !self.neg && ic >= 1
    }

    /// Is the value at most `n`, for a small integer bound `n` (1 or 2)?
    pub fn le_small(&self, n: u8) -> (b: bool)
        requires
            dec_wf(self@),
            1 <= n <= 2,
        ensures
            b == (dec_num(self@) <= n * dec_den(self@)),
    {
        let ic: u8 = int_class(&self.int_digits);
        let fz = digits_zero(&self.frac_digits);
        proof {
            lemma_dec_class(self@, ic as int, fz);
            if n == 1 {
                assert(n * dec_den(self@) == 1 * dec_den(self@));
            } else {
                assert(n * dec_den(self@) == 2 * dec_den(self@));
            }
        }
        self.neg || ic < n || (ic == n && fz)
    }
}

/// Leading zeros removed, keeping at least one character.
pub open spec fn strip_zeros(s: Seq<char>) -> Seq<char>
    decreases s.len(),
{
    if s.len() > 1 && s[0] == '0' {
        strip_zeros(s.skip(1))
    } else {
        s
    }
}

/// Canonical text of a decimal: optional sign, integer digits without
/// leading zeros, and the fraction when one was given.
pub open spec fn spec_render_decimal(d: DecimalV) -> Seq<char> {
    (if d.neg {
        seq!['-']
    } else {
        Seq::<char>::empty()
    }) + strip_zeros(d.int_digits) + (if d.frac_digits.len() > 0 {
        seq!['.'] + d.frac_digits
    } else {
        Seq::<char>::empty()
    })
}

proof fn lemma_strip_zeros_skip(s: Seq<char>, z: int)
    requires
        0 <= z < s.len(),
        forall|j: int| 0 <= j < z ==> s[j] == '0',
        z == s.len() - 1 || s[z] != '0',
    ensures
        strip_zeros(s) == s.skip(z),
    decreases z,
{
    if z == 0 {
        if s.len() > 1 && s[0] == '0' {
            assert(false);
        }
        assert(s.skip(0) =~= s);
    } else {
        assert(s.len() > 1 && s[0] == '0');
        assert forall|j: int| 0 <= j < z - 1 implies s.skip(1)[j] == '0' by {
            assert(s.skip(1)[j] == s[j + 1]);
        }
        assert(z - 1 == s.skip(1).len() - 1 || s.skip(1)[z - 1] != '0');
        lemma_strip_zeros_skip(s.skip(1), z - 1);
        assert(s.skip(1).skip(z - 1) =~= s.skip(z));
    }
}

/// Render a decimal as canonical text (a valid JSON number).
pub fn render_decimal(d: &Decimal) -> (out: Vec<char>)
    requires
        dec_wf(d@),
    ensures
        out@ == spec_render_decimal(d@),
{
    let mut out: Vec<char> = Vec::new();
    if d.neg {
        out.push('-');
    }
    let mut z: usize = 0;
    while z + 1 < d.int_digits.len() && d.int_digits[z] == '0'
        invariant
            0 <= z < d.int_digits.len(),
            d.int_digits@.len() > 0,
            forall|j: int| 0 <= j < z ==> d.int_digits@[j] == '0',
        decreases d.int_digits@.len() - z,
    {
        z += 1;
    }
    proof {
        lemma_strip_zeros_skip(d.int_digits@, z as int);
    }
    let mut i: usize = z;
    while i < d.int_digits.len()
        invariant
            z <= i <= d.int_digits.len(),
            out@ == (if d.neg {
                seq!['-']
            } else {
                Seq::<char>::empty()
            }) + d.int_digits@.subrange(z as int, i as int),
        decreases d.int_digits@.len() - i,
    {
        out.push(d.int_digits[i]);
        proof {
            let pre = if d.neg {
                seq!['-']
            } else {
                Seq::<char>::empty()
            };
            assert(pre + d.int_digits@.subrange(z as int, i as int) + seq![d.int_digits@[i as int]]
                =~= pre + d.int_digits@.subrange(z as int, i + 1));
        }
        i += 1;
    }
    proof {
        assert(d.int_digits@.subrange(z as int, d.int_digits@.len() as int) =~= d.int_digits@.skip(
            z as int,
        ));
    }
    if d.frac_digits.len() > 0 {
        out.push('.');
        let mut j: usize = 0;
        while j < d.frac_digits.len()
            invariant
                0 <= j <= d.frac_digits.len(),
                out@ == (if d.neg {
                    seq!['-']
                } else {
                    Seq::<char>::empty()
                }) + strip_zeros(d.int_digits@) + seq!['.'] + d.frac_digits@.take(j as int),
            decreases d.frac_digits@.len() - j,
        {
            out.push(d.frac_digits[j]);
            proof {
                let pre = (if d.neg {
                    seq!['-']
                } else {
                    Seq::<char>::empty()
                }) + strip_zeros(d.int_digits@) + seq!['.'];
                assert(pre + d.frac_digits@.take(j as int) + seq![d.frac_digits@[j as int]] =~= pre
                    + d.frac_digits@.take(j + 1));
            }
            j += 1;
        }
        proof {
            assert(d.frac_digits@.take(d.frac_digits@.len() as int) =~= d.frac_digits@);
            assert(out@ =~= spec_render_decimal(d@));
        }
    } else {
        proof {
            assert(out@ =~= spec_render_decimal(d@));
        }
    }
    out
}

} // verus!
