//! Decimal quantities held as integers with eight decimal places, the
//! precision in which the exchange quotes prices and volumes.
use vstd::prelude::*;

verus! {

/// Units in one whole: a quantity `x` stands for `x / SCALE`.
pub const SCALE: i64 = 100_000_000;

/// Largest magnitude, in units, that a quantity may have (ten million whole).
pub const MAX_UNITS: i64 = 1_000_000_000_000_000;

/// Largest integer part that a decimal string may carry.
pub const MAX_WHOLE: u64 = 10_000_000;

/// A quantity in units lies within the representable range.
pub open spec fn in_range(x: int) -> bool {
    -MAX_UNITS <= x <= MAX_UNITS
}

/// Division rounding toward zero, as integer division does in Rust.
pub open spec fn tdiv(a: int, b: int) -> int {
    if b < 0 {
        -tdiv_pos(a, -b)
    } else {
        tdiv_pos(a, b)
    }
}

pub open spec fn tdiv_pos(a: int, b: int) -> int {
    if a >= 0 {
        a / b
    } else {
        -((-a) / b)
    }
}

pub open spec fn max_int(a: int, b: int) -> int {
    if a >= b {
        a
    } else {
        b
    }
}

pub open spec fn min_int(a: int, b: int) -> int {
    if a <= b {
        a
    } else {
        b
    }
}

/// Product of two machine integers, exact in 128 bits.
pub fn mul_wide(a: i64, b: i64) -> (r: i128)
    ensures
        r == a * b,
{
    proof {
        let m: int = 0x8000_0000_0000_0000;
        let aa: int = if a < 0 { -a } else { a as int };
        let bb: int = if b < 0 { -b } else { b as int };
        assert(aa * bb <= m * m) by (nonlinear_arith)
            requires
                0 <= aa <= m,
                0 <= bb <= m,
        ;
        assert(a * b == aa * bb || a * b == -(aa * bb)) by (nonlinear_arith)
            requires
                aa == a || aa == -a,
                bb == b || bb == -b,
        ;
        assert(m * m == 0x4000_0000_0000_0000_0000_0000_0000_0000);
        assert(aa * bb >= 0) by (nonlinear_arith)
            requires
                0 <= aa,
                0 <= bb,
        ;
    }
    (a as i128) * (b as i128)
}

/// A quotient rounding toward zero is no larger in magnitude than its dividend.
pub proof fn lemma_tdiv_bound(a: int, b: int, m: int)
    requires
        b != 0,
        -m <= a <= m,
    ensures
        -m <= tdiv(a, b) <= m,
{
    let bb = if b < 0 { -b } else { b };
    if a >= 0 {
        assert(a / bb <= a) by (nonlinear_arith)
            requires a >= 0, bb >= 1;
        assert(a / bb >= 0) by (nonlinear_arith)
            requires a >= 0, bb >= 1;
    } else {
        assert((-a) / bb <= -a) by (nonlinear_arith)
            requires -a >= 0, bb >= 1;
        assert((-a) / bb >= 0) by (nonlinear_arith)
            requires -a >= 0, bb >= 1;
    }
}

/// Quotient rounding toward zero.
pub fn div_wide(a: i128, b: i128) -> (r: i128)
    requires
        b != 0,
        a > i128::MIN,
        b > i128::MIN,
    ensures
        r == tdiv(a as int, b as int),
{
    if b > 0 {
        a / b
    } else {
        let q = a / (-b);
        proof {
            if a >= 0 {
                assert(a as int / (-b) <= a as int) by (nonlinear_arith)
                    requires a >= 0, -b >= 1;
            } else {
                assert((-a) as int / (-b) <= -a) by (nonlinear_arith)
                    requires -a >= 0, -b >= 1;
            }
        }
        -q
    }
}

/// An exact quotient `num / den`; well formed when the denominator is positive.
#[derive(Clone, Copy, Debug, PartialEq, Eq, Structural)]
pub struct Ratio {
    pub num: i64,
    pub den: i64,
}

impl Ratio {
    pub open spec fn zero() -> Ratio {
        Ratio { num: 0, den: 1 }
    }

    pub open spec fn one() -> Ratio {
        Ratio { num: 1, den: 1 }
    }

    pub open spec fn wf(self) -> bool {
        self.den > 0
    }

    /// `self < other` as rational numbers.
    pub open spec fn lt(self, other: Ratio) -> bool {
        self.num * other.den < other.num * self.den
    }

    /// `self <= other` as rational numbers.
    pub open spec fn le(self, other: Ratio) -> bool {
        self.num * other.den <= other.num * self.den
    }

    /// Whether `self < other`.
    pub fn less_than(&self, other: &Ratio) -> (b: bool)
        ensures
            b == self.lt(*other),
    {
        mul_wide(self.num, other.den) < mul_wide(other.num, self.den)
    }

    /// Whether `self <= other`.
    pub fn at_most(&self, other: &Ratio) -> (b: bool)
        ensures
            b == self.le(*other),
    {
        mul_wide(self.num, other.den) <= mul_wide(other.num, self.den)
    }
}

pub open spec fn is_digit(b: u8) -> bool {
    48 <= b <= 57
}

pub open spec fn all_digits(s: Seq<u8>) -> bool {
    forall|i: int| 0 <= i < s.len() ==> is_digit(#[trigger] s[i])
}

/// The number that a string of decimal digits spells.
pub open spec fn digits_value(s: Seq<u8>) -> nat
    decreases s.len(),
{
    if s.len() == 0 {
        0
    } else {
        digits_value(s.drop_last()) * 10 + (s.last() - 48) as nat
    }
}

pub open spec fn pow10(n: nat) -> nat
    decreases n,
{
    if n == 0 {
        1
    } else {
        10 * pow10((n - 1) as nat)
    }
}

/// Position of the first `.` in `s`, or its length where there is none.
pub open spec fn dot_index(s: Seq<u8>) -> int
    decreases s.len(),
{
    if s.len() == 0 {
        0
    } else if s[0] == 46 {
        0
    } else {
        1 + dot_index(s.drop_first())
    }
}

/// Units that the digits after the point give: the first eight count,
/// later ones are dropped.
pub open spec fn frac_units(f: Seq<u8>) -> nat {
    if f.len() >= 8 {
        digits_value(f.take(8))
    } else {
        digits_value(f) * pow10((8 - f.len()) as nat)
    }
}

/// Digits before the point of an unsigned decimal.
pub open spec fn int_part(body: Seq<u8>) -> Seq<u8> {
    body.take(dot_index(body))
}

/// Digits after the point of an unsigned decimal (empty without a point).
pub open spec fn frac_part(body: Seq<u8>) -> Seq<u8> {
    if dot_index(body) < body.len() {
        body.skip(dot_index(body) + 1)
    } else {
        Seq::empty()
    }
}

/// An unsigned decimal: digits, optionally a point and more digits, at
/// least one digit in all; its value in units.
pub open spec fn unsigned_units(body: Seq<u8>) -> Option<int> {
    let ip = int_part(body);
    let fp = frac_part(body);
    if all_digits(ip) && all_digits(fp) && ip.len() + fp.len() >= 1 {
        Some(digits_value(ip) * SCALE + frac_units(fp))
    } else {
        None
    }
}

/// A decimal with an optional `+` or `-` sign, in units; `None` where the
/// text is no such decimal or its value lies outside the range.
pub open spec fn spec_parse_decimal(s: Seq<u8>) -> Option<int> {
    let signed = s.len() > 0 && (s[0] == 43 || s[0] == 45);
    let body = if signed {
        s.skip(1)
    } else {
        s
    };
    match unsigned_units(body) {
        Some(v) => {
            let r = if s.len() > 0 && s[0] == 45 {
                -v
            } else {
                v
            };
            if in_range(r) {
                Some(r)
            } else {
                None
            }
        },
        None => None,
    }
}

proof fn lemma_digits_take_step(s: Seq<u8>, i: int)
    requires
        0 <= i < s.len(),
    ensures
        digits_value(s.take(i + 1)) == digits_value(s.take(i)) * 10 + (s[i] - 48) as nat,
{
    assert(s.take(i + 1).drop_last() =~= s.take(i));
}

proof fn lemma_digits_monotone(s: Seq<u8>, i: int, k: int)
    requires
        0 <= i <= k <= s.len(),
        all_digits(s.take(k)),
    ensures
        digits_value(s.take(i)) <= digits_value(s.take(k)),
    decreases k - i,
{
    if i < k {
        lemma_digits_monotone(s, i, k - 1);
        lemma_digits_take_step(s, k - 1);
        assert(s.take(k)[k - 1] == s[k - 1]);
        assert(s.take(k - 1) =~= s.take(k).take(k - 1));
    }
}

proof fn lemma_dot_index_bounds(s: Seq<u8>)
    ensures
        0 <= dot_index(s) <= s.len(),
        dot_index(s) < s.len() ==> s[dot_index(s)] == 46,
        forall|j: int| 0 <= j < dot_index(s) ==> s[j] != 46,
    decreases s.len(),
{
    if s.len() > 0 && s[0] != 46 {
        lemma_dot_index_bounds(s.drop_first());
        assert forall|j: int| 0 <= j < dot_index(s) implies s[j] != 46 by {
            if j > 0 {
                assert(s[j] == s.drop_first()[j - 1]);
            }
        }
    }
}

proof fn lemma_dot_index_at(s: Seq<u8>, k: int)
    requires
        0 <= k <= s.len(),
        forall|j: int| 0 <= j < k ==> s[j] != 46,
        k == s.len() || s[k] == 46,
    ensures
        dot_index(s) == k,
    decreases s.len(),
{
    if k > 0 {
        assert forall|j: int| 0 <= j < k - 1 implies s.drop_first()[j] != 46 by {
            assert(s.drop_first()[j] == s[j + 1]);
        }
        if k < s.len() {
            assert(s.drop_first()[k - 1] == s[k]);
        }
        lemma_dot_index_at(s.drop_first(), k - 1);
    }
}

proof fn lemma_pow10_add(a: nat, b: nat)
    ensures
        pow10(a) * pow10(b) == pow10(a + b),
    decreases a,
{
    if a > 0 {
        lemma_pow10_add((a - 1) as nat, b);
        assert(((a - 1) as nat + b) as nat == (a + b - 1) as nat);
        assert(pow10(a + b) == 10 * pow10((a + b - 1) as nat));
        assert(pow10(a) * pow10(b) == 10 * (pow10((a - 1) as nat) * pow10(b))) by (nonlinear_arith)
            requires pow10(a) == 10 * pow10((a - 1) as nat);
    } else {
        assert(pow10(0) == 1);
        assert(a + b == b);
    }
}

proof fn lemma_pow10_pos(n: nat)
    ensures
        pow10(n) >= 1,
    decreases n,
{
    if n > 0 {
        lemma_pow10_pos((n - 1) as nat);
    }
}

proof fn lemma_pow10_bound(n: nat)
    requires
        n <= 8,
    ensures
        1 <= pow10(n) <= 100_000_000,
        pow10(n) * pow10((8 - n) as nat) == 100_000_000,
{
    lemma_pow10_add(n, (8 - n) as nat);
    assert(pow10(8) == 100_000_000) by {
        reveal_with_fuel(pow10, 9);
    }
    lemma_pow10_pos(n);
    lemma_pow10_pos((8 - n) as nat);
    assert(pow10(n) <= 100_000_000) by (nonlinear_arith)
        requires
            pow10(n) * pow10((8 - n) as nat) == 100_000_000,
            pow10((8 - n) as nat) >= 1;
}

proof fn lemma_sign(s: Seq<u8>, start: int)
    requires
        start == (if s.len() > 0 && (s[0] == 43 || s[0] == 45) { 1int } else { 0int }),
    ensures
        spec_parse_decimal(s) == (match unsigned_units(s.skip(start)) {
            Some(v) => {
                let r = if start == 1 && s[0] == 45 { -v } else { v };
                if in_range(r) { Some(r) } else { None }
            },
            None => None,
        }),
{
    if start == 0 {
        assert(s.skip(0) =~= s);
    }
}

proof fn lemma_frac_bound(f: Seq<u8>, j: int)
    requires
        0 <= j <= 8,
        j <= f.len(),
        all_digits(f.take(j)),
    ensures
        digits_value(f.take(j)) < pow10(j as nat),
    decreases j,
{
    if j > 0 {
        assert(f.take(j - 1) =~= f.take(j).take(j - 1));
        assert forall|i: int| 0 <= i < j - 1 implies is_digit(#[trigger] f.take(j - 1)[i]) by {
            assert(f.take(j - 1)[i] == f.take(j)[i]);
        }
        lemma_frac_bound(f, j - 1);
        lemma_digits_take_step(f, j - 1);
        assert(f.take(j)[j - 1] == f[j - 1]);
        assert(pow10(j as nat) == 10 * pow10((j - 1) as nat));
    }
}

proof fn lemma_dot_index_of_digits(s: Seq<u8>)
    requires
        all_digits(s),
    ensures
        dot_index(s) == s.len(),
    decreases s.len(),
{
    if s.len() > 0 {
        assert(is_digit(s[0]));
        let r = s.drop_first();
        assert forall|i: int| 0 <= i < r.len() implies is_digit(#[trigger] r[i]) by {
            assert(r[i] == s[i + 1]);
        }
        lemma_dot_index_of_digits(r);
    }
}

/// How decimals read, stated on the text: a string of digits spells a whole
/// number, `units = value * 1e8` (within the range); `0.` followed by eight
/// digits gives those eight digits as units; a leading `-` negates the
/// unsigned reading and a leading `+` keeps it.
pub proof fn lemma_decimal_reading(s: Seq<u8>)
    ensures
        (all_digits(s) && s.len() >= 1 && digits_value(s) <= MAX_WHOLE) ==> spec_parse_decimal(s) == Some(
            digits_value(s) * SCALE,
        ),
        (all_digits(s) && s.len() == 8) ==> spec_parse_decimal(seq![48u8, 46u8] + s) == Some(digits_value(s) as int),
        (s.len() == 0 || (s[0] != 43 && s[0] != 45)) ==> {
            &&& spec_parse_decimal(seq![43u8] + s) == spec_parse_decimal(s)
            &&& spec_parse_decimal(seq![45u8] + s) == (match spec_parse_decimal(s) {
                Some(v) => Some(-v),
                None => None,
            })
        },
{
    if all_digits(s) && s.len() >= 1 {
        lemma_dot_index_of_digits(s);
        assert(int_part(s) =~= s);
        assert(frac_part(s) =~= Seq::<u8>::empty());
        assert(digits_value(Seq::<u8>::empty()) == 0);
        assert(0 * pow10(8) == 0) by (nonlinear_arith);
        assert(frac_units(Seq::<u8>::empty()) == 0);
        assert(all_digits(Seq::<u8>::empty()));
    }
    if all_digits(s) && s.len() == 8 {
        let t = seq![48u8, 46u8] + s;
        assert(t.drop_first()[0] == 46u8);
        assert(dot_index(t.drop_first()) == 0);
        assert(dot_index(t) == 1);
        assert(int_part(t) =~= seq![48u8]);
        assert(frac_part(t) =~= s);
        assert(s.take(8) =~= s);
        assert(digits_value(seq![48u8]) == 0) by {
            assert(seq![48u8].drop_last() =~= Seq::<u8>::empty());
        }
        assert(all_digits(seq![48u8])) by {
            assert(is_digit(48u8));
        }
        assert(digits_value(s) < 100_000_000) by {
            lemma_digits_below(s);
            reveal_with_fuel(pow10, 9);
        }
    }
    if s.len() == 0 || (s[0] != 43 && s[0] != 45) {
        assert((seq![43u8] + s).skip(1) =~= s);
        assert((seq![45u8] + s).skip(1) =~= s);
    }
}

proof fn lemma_digits_below(s: Seq<u8>)
    requires
        all_digits(s),
    ensures
        digits_value(s) < pow10(s.len()),
    decreases s.len(),
{
    if s.len() > 0 {
        let r = s.drop_last();
        assert forall|i: int| 0 <= i < r.len() implies is_digit(#[trigger] r[i]) by {
            assert(r[i] == s[i]);
        }
        lemma_digits_below(r);
        assert(is_digit(s.last()));
        assert(pow10(s.len()) == 10 * pow10(r.len()));
    }
}

/// Reads a decimal such as `67123.45000000`, `-0.41` or `12` into units.
/// Digits beyond the eighth after the point are dropped. The library holds
/// quantities as integers of at most `MAX_UNITS` units (ten million whole),
/// so a value beyond that, or a form that is not a plain decimal (such as
/// exponent notation `1e5`), reads as `None`: the exchange quotes prices and
/// volumes as plain decimals with eight places, well inside the range.
#[verifier::rlimit(40)]
pub fn parse_decimal(s: &[u8]) -> (r: Option<i64>)
    ensures
        match r {
            Some(v) => spec_parse_decimal(s@) == Some(v as int),
            None => spec_parse_decimal(s@) is None,
        },
{
    let n = s.len();
    let mut i: usize = 0;
    let mut neg = false;
    if n > 0 && (s[0] == 43u8 || s[0] == 45u8) {
        neg = s[0] == 45u8;
        i = 1;
    }
    let start = i;
    let ghost body = s@.skip(start as int);
    proof {
        lemma_sign(s@, start as int);
        lemma_dot_index_bounds(body);
    }
    let mut whole: u64 = 0;
    while i < n && 48u8 <= s[i] && s[i] <= 57u8
        invariant
            start <= i <= n,
            n == s@.len(),
            start == (if s@.len() > 0 && (s@[0] == 43 || s@[0] == 45) { 1int } else { 0int }),
            body == s@.skip(start as int),
            whole <= MAX_WHOLE,
            all_digits(body.take(i - start)),
            whole == digits_value(body.take(i - start)),
        decreases n - i,
    {
        let d = (s[i] - 48u8) as u64;
        proof {
            lemma_digits_take_step(body, i - start);
            assert(body[i - start] == s@[i as int]);
            assert forall|j: int| 0 <= j < i - start + 1 implies is_digit(
                #[trigger] body.take(i - start + 1)[j],
            ) by {
                if j < i - start {
                    assert(body.take(i - start + 1)[j] == body.take(i - start)[j]);
                }
            }
        }
        let next = whole * 10 + d;
        if next > MAX_WHOLE {
            proof {
                lemma_too_large(s@, body, start as int, (i - start + 1) as int);
            }
            return None;
        }
        whole = next;
        i = i + 1;
    }
    let int_len = i - start;
    let mut frac: u64 = 0;
    let mut frac_taken: usize = 0;
    let mut frac_len: usize = 0;
    let ghost mut fseq: Seq<u8> = Seq::empty();
    proof {
        assert forall|j: int| 0 <= j < int_len implies body[j] != 46 by {
            assert(body.take(int_len as int)[j] == body[j]);
        }
    }
    if i < n {
        if s[i] != 46u8 {
            proof {
                assert(body[int_len as int] == s@[i as int]);
                lemma_bad_char(body, int_len as int);
            }
            return None;
        }
        proof {
            assert(body[int_len as int] == s@[i as int]);
            lemma_dot_index_at(body, int_len as int);
            fseq = body.skip(int_len + 1);
            assert(fseq == frac_part(body));
        }
        i = i + 1;
        while i < n
            invariant
                start + int_len + 1 <= i <= n,
                n == s@.len(),
                body == s@.skip(start as int),
                fseq == body.skip(int_len + 1),
                fseq == frac_part(body),
                unsigned_units(body) is None ==> spec_parse_decimal(s@) is None,
                fseq.len() == n - start - int_len - 1,
                frac_len == i - start - int_len - 1,
                frac_taken == if frac_len <= 8 { frac_len } else { 8 },
                all_digits(fseq.take(frac_len as int)),
                frac == digits_value(fseq.take(frac_taken as int)),
                frac < pow10(frac_taken as nat),
                frac_taken <= 8,
            decreases n - i,
        {
            proof {
                assert(fseq[frac_len as int] == s@[i as int]);
            }
            if !(48u8 <= s[i] && s[i] <= 57u8) {
                proof {
                    assert(!is_digit(fseq[frac_len as int]));
                    assert(!all_digits(frac_part(body)));
                }
                return None;
            }
            proof {
                assert forall|j: int| 0 <= j < frac_len + 1 implies is_digit(
                    #[trigger] fseq.take(frac_len + 1)[j],
                ) by {
                    if j < frac_len {
                        assert(fseq.take(frac_len + 1)[j] == fseq.take(frac_len as int)[j]);
                    }
                }
            }
            if frac_taken < 8 {
                proof {
                    lemma_digits_take_step(fseq, frac_taken as int);
                    lemma_pow10_bound(frac_taken as nat);
                    lemma_pow10_bound((frac_taken + 1) as nat);
                    assert(pow10((frac_taken + 1) as nat) == 10 * pow10(frac_taken as nat));
                }
                frac = frac * 10 + (s[i] - 48u8) as u64;
                frac_taken = frac_taken + 1;
            }
            frac_len = frac_len + 1;
            i = i + 1;
        }
        proof {
            assert(fseq.take(frac_len as int) =~= fseq);
        }
    } else {
        proof {
            lemma_dot_index_at(body, int_len as int);
            assert(frac_part(body) =~= fseq);
        }
    }
    proof {
        assert(body.take(int_len as int) =~= int_part(body));
        assert(fseq == frac_part(body));
    }
    if int_len + frac_len == 0 {
        return None;
    }
    proof {
        lemma_pow10_bound(frac_taken as nat);
        if frac_len >= 8 {
            assert(frac_units(fseq) == frac);
        } else {
            assert(fseq.take(frac_len as int) =~= fseq);
        }
        assert(frac * pow10((8 - frac_taken) as nat) < 100_000_000) by (nonlinear_arith)
            requires
                frac < pow10(frac_taken as nat),
                pow10(frac_taken as nat) * pow10((8 - frac_taken) as nat) == 100_000_000,
        ;
    }
    let scale_rest: u64 = pow10_exec(8 - frac_taken);
    let magnitude: u64 = whole * 100_000_000 + frac * scale_rest;
    proof {
        lemma_sign(s@, start as int);
        assert(frac_units(frac_part(body)) == frac * scale_rest);
        assert(unsigned_units(body) == Some(magnitude as int));
    }
    if magnitude > MAX_UNITS as u64 {
        return None;
    }
    let m = magnitude as i64;
    if neg {
        Some(-m)
    } else {
        Some(m)
    }
}

proof fn lemma_too_large(s: Seq<u8>, body: Seq<u8>, start: int, k: int)
    requires
        start == (if s.len() > 0 && (s[0] == 43 || s[0] == 45) { 1int } else { 0int }),
        body == s.skip(start),
        0 < k <= body.len(),
        all_digits(body.take(k)),
        digits_value(body.take(k)) > MAX_WHOLE,
    ensures
        spec_parse_decimal(s) is None,
{
    if s.len() > 0 && (s[0] == 43 || s[0] == 45) {
        assert(body =~= s.skip(1));
    } else {
        assert(body =~= s);
    }
    lemma_dot_index_bounds(body);
    let p = dot_index(body);
    if unsigned_units(body) is Some {
        if p < k {
            assert(body.take(k)[p] == body[p]);
        }
        assert(int_part(body) == body.take(p));
        lemma_digits_monotone(body, k, p);
        let v = digits_value(body.take(p)) * SCALE + frac_units(frac_part(body));
        assert(digits_value(body.take(p)) >= MAX_WHOLE + 1);
        assert(digits_value(body.take(p)) * SCALE >= (MAX_WHOLE + 1) * SCALE) by (nonlinear_arith)
            requires digits_value(body.take(p)) >= MAX_WHOLE + 1;
        assert(v > MAX_UNITS);
    }
}

proof fn lemma_bad_char(body: Seq<u8>, k: int)
    requires
        0 <= k < body.len(),
        all_digits(body.take(k)),
        !is_digit(body[k]),
        body[k] != 46,
    ensures
        unsigned_units(body) is None,
{
    lemma_dot_index_bounds(body);
    let p = dot_index(body);
    if p < k {
        assert(body.take(k)[p] == body[p]);
    }
    assert(p > k);
    assert(int_part(body)[k] == body[k]);
}

fn pow10_exec(n: usize) -> (r: u64)
    requires
        n <= 8,
    ensures
        r == pow10(n as nat),
{
    let mut r: u64 = 1;
    let mut k: usize = 0;
    while k < n
        invariant
            k <= n <= 8,
            r == pow10(k as nat),
            r <= 100_000_000,
        decreases n - k,
    {
        proof {
            lemma_pow10_bound((k + 1) as nat);
        }
        r = r * 10;
        k = k + 1;
    }
    r
}

} // verus!
