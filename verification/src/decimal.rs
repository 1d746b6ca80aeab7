//! Exact decimal numerals on the wire.
//!
//! Every numeric field of the protocol is carried as an ASCII decimal
//! numeral. The device works at single-precision resolution and the codec
//! must be lossless, so the library stores each numeral as the exact byte
//! token that stands (or will stand) on the wire and reasons about its exact
//! rational value: a token with sign `s`, mantissa digits `m` and scale `p`
//! denotes `(-1)^s * m * 10^p`. No rounding happens anywhere in the library;
//! turning a machine float into its shortest decimal token and back is the
//! caller's affair.
//!
//! The accepted grammar is `sign? digits ('.' digits)? ([eE] sign? digits)?`
//! with at most nine exponent digits; that covers every numeral the device
//! emits or accepts, while non-numeric specials and astronomically scaled
//! exponents are rejected.

use vstd::prelude::*;

use crate::errors::ConfigurationError;

verus! {

/// ASCII decimal digit.
pub open spec fn is_digit(b: u8) -> bool {
    48 <= b <= 57
}

/// Numeric value of one ASCII digit byte.
pub open spec fn digit_val(b: u8) -> nat
    recommends
        is_digit(b),
{
    (b - 48) as nat
}

/// Every byte of the sequence is an ASCII digit.
pub open spec fn all_digits(s: Seq<u8>) -> bool {
    forall|i: int| 0 <= i < s.len() ==> is_digit(#[trigger] s[i])
}

/// Value of a digit string read as a base-10 numeral.
pub open spec fn digits_val(s: Seq<u8>) -> nat
    decreases s.len(),
{
    if s.len() == 0 {
        0
    } else {
        digits_val(s.drop_last()) * 10 + digit_val(s.last())
    }
}

/// Ten to the power `e`.
pub open spec fn pow10(e: nat) -> nat
    decreases e,
{
    if e == 0 {
        1
    } else {
        10 * pow10((e - 1) as nat)
    }
}

/// A byte that may occur in a numeral: a digit, `.`, `e`, `E`, `+` or `-`.
pub open spec fn is_number_byte(b: u8) -> bool {
    is_digit(b) || b == 46 || b == 101 || b == 69 || b == 43 || b == 45
}

/// First position at or after `i` that does not hold an ASCII digit
/// (or the end of the sequence).
pub open spec fn digits_end(s: Seq<u8>, i: int) -> int
    decreases s.len() - i,
{
    if i < 0 || i >= s.len() {
        i
    } else if is_digit(s[i]) {
        digits_end(s, i + 1)
    } else {
        i
    }
}

/// First position at or after `i` that does not hold a number byte
/// (or the end of the sequence).
pub open spec fn number_end(s: Seq<u8>, i: int) -> int
    decreases s.len() - i,
{
    if i < 0 || i >= s.len() {
        i
    } else if is_number_byte(s[i]) {
        number_end(s, i + 1)
    } else {
        i
    }
}

/// Length of the leading sign of a token: one for `+` or `-`, else zero.
pub open spec fn sign_len(s: Seq<u8>) -> int {
    if s.len() > 0 && (s[0] == 43 || s[0] == 45) {
        1
    } else {
        0
    }
}

/// End of the integer-part digits.
pub open spec fn int_end(s: Seq<u8>) -> int {
    digits_end(s, sign_len(s))
}

/// The token carries a fraction part (a `.` follows the integer digits).
pub open spec fn has_frac(s: Seq<u8>) -> bool {
    int_end(s) < s.len() && s[int_end(s)] == 46
}

/// End of the fraction digits (or of the integer digits if no fraction).
pub open spec fn frac_end(s: Seq<u8>) -> int {
    if has_frac(s) {
        digits_end(s, int_end(s) + 1)
    } else {
        int_end(s)
    }
}

/// The token carries an exponent part (an `e` or `E` follows).
pub open spec fn has_exp(s: Seq<u8>) -> bool {
    frac_end(s) < s.len() && (s[frac_end(s)] == 101 || s[frac_end(s)] == 69)
}

/// Start of the exponent digits, after the exponent marker and its sign.
pub open spec fn exp_digits_start(s: Seq<u8>) -> int {
    if frac_end(s) + 1 < s.len() && (s[frac_end(s) + 1] == 43 || s[frac_end(s) + 1] == 45) {
        frac_end(s) + 2
    } else {
        frac_end(s) + 1
    }
}

/// End of the exponent digits.
pub open spec fn exp_end(s: Seq<u8>) -> int {
    digits_end(s, exp_digits_start(s))
}

/// The sequence is one well-formed decimal numeral, whole.
pub open spec fn is_decimal_token(s: Seq<u8>) -> bool {
    &&& int_end(s) > sign_len(s)
    &&& (has_frac(s) ==> frac_end(s) > int_end(s) + 1)
    &&& if has_exp(s) {
        &&& exp_end(s) == s.len()
        &&& exp_end(s) > exp_digits_start(s)
        &&& exp_end(s) - exp_digits_start(s) <= 9
    } else {
        frac_end(s) == s.len()
    }
}

/// The token denotes a negative quantity of its magnitude (leading `-`).
pub open spec fn token_neg(s: Seq<u8>) -> bool {
    s.len() > 0 && s[0] == 45
}

/// The integer-part digits.
pub open spec fn int_digits(s: Seq<u8>) -> Seq<u8> {
    s.subrange(sign_len(s), int_end(s))
}

/// The fraction digits (empty if no fraction part).
pub open spec fn frac_digits(s: Seq<u8>) -> Seq<u8> {
    if has_frac(s) {
        s.subrange(int_end(s) + 1, frac_end(s))
    } else {
        Seq::empty()
    }
}

/// All mantissa digits: integer part followed by fraction part.
pub open spec fn mant_digits(s: Seq<u8>) -> Seq<u8> {
    int_digits(s) + frac_digits(s)
}

/// The exponent is negative (`-` after the exponent marker).
pub open spec fn exp_neg(s: Seq<u8>) -> bool {
    has_exp(s) && frac_end(s) + 1 < s.len() && s[frac_end(s) + 1] == 45
}

/// The exponent digits (empty if no exponent part).
pub open spec fn exp_digits(s: Seq<u8>) -> Seq<u8> {
    if has_exp(s) {
        s.subrange(exp_digits_start(s), exp_end(s))
    } else {
        Seq::empty()
    }
}

/// The signed exponent written in the token (zero if none).
pub open spec fn exp_val(s: Seq<u8>) -> int {
    if exp_neg(s) {
        -(digits_val(exp_digits(s)) as int)
    } else {
        digits_val(exp_digits(s)) as int
    }
}

/// The mantissa read as one integer.
pub open spec fn mant_val(s: Seq<u8>) -> nat {
    digits_val(mant_digits(s))
}

/// Power-of-ten scale of the token: its magnitude is `mant_val * 10^scale`.
pub open spec fn scale(s: Seq<u8>) -> int {
    exp_val(s) - frac_digits(s).len()
}

/// `m * 10^p <= b * 10^-q`, stated over naturals.
pub open spec fn scaled_le(m: nat, p: int, b: nat, q: int) -> bool {
    if p + q >= 0 {
        m * pow10((p + q) as nat) <= b
    } else {
        m <= b * pow10((-(p + q)) as nat)
    }
}

/// `m1 * 10^p1 == m2 * 10^p2`, stated over naturals.
pub open spec fn scaled_eq(m1: nat, p1: int, m2: nat, p2: int) -> bool {
    if p1 >= p2 {
        m1 * pow10((p1 - p2) as nat) == m2
    } else {
        m1 == m2 * pow10((p2 - p1) as nat)
    }
}

/// Scans digits: returns the first position at or after `pos` that does not
/// hold a digit.
pub fn scan_digits(s: &Vec<u8>, pos: usize) -> (end: usize)
    requires
        pos <= s@.len(),
    ensures
        end == digits_end(s@, pos as int),
        pos <= end <= s@.len(),
{
    let mut i = pos;
    while i < s.len() && 48 <= s[i] && s[i] <= 57
        invariant
            pos <= i <= s@.len(),
            digits_end(s@, pos as int) == digits_end(s@, i as int),
        decreases s@.len() - i,
    {
        i = i + 1;
    }
    i
}

/// Scans number bytes: returns the first position at or after `pos` that does
/// not hold a byte that may occur in a numeral.
pub fn scan_number(s: &Vec<u8>, pos: usize) -> (end: usize)
    requires
        pos <= s@.len(),
    ensures
        end == number_end(s@, pos as int),
        pos <= end <= s@.len(),
{
    let mut i = pos;
    while i < s.len() && (48 <= s[i] && s[i] <= 57 || s[i] == 46 || s[i] == 101 || s[i] == 69
        || s[i] == 43 || s[i] == 45)
        invariant
            pos <= i <= s@.len(),
            number_end(s@, pos as int) == number_end(s@, i as int),
        decreases s@.len() - i,
    {
        i = i + 1;
    }
    i
}

/// Copies the byte range `[from, to)` out of `s`.
pub fn copy_range(s: &Vec<u8>, from: usize, to: usize) -> (r: Vec<u8>)
    requires
        from <= to <= s@.len(),
    ensures
        r@ == s@.subrange(from as int, to as int),
{
    let mut r: Vec<u8> = Vec::new();
    let mut i = from;
    while i < to
        invariant
            from <= i <= to <= s@.len(),
            r@ == s@.subrange(from as int, i as int),
        decreases to - i,
    {
        let b = s[i];
        r.push(b);
        assert(r@ =~= s@.subrange(from as int, i + 1 as int));
        i = i + 1;
    }
    r
}

/// Decides whether the whole byte sequence is one well-formed numeral.
pub fn check_token(s: &Vec<u8>) -> (b: bool)
    ensures
        b == is_decimal_token(s@),
{
    let n = s.len();
    let sl: usize = if n > 0 && (s[0] == 43 || s[0] == 45) {
        1
    } else {
        0
    };
    assert(sl == sign_len(s@));
    let ie = scan_digits(s, sl);
    if ie == sl {
        return false;
    }
    let hf = ie < n && s[ie] == 46;
    let fe = if hf {
        scan_digits(s, ie + 1)
    } else {
        ie
    };
    if hf && fe == ie + 1 {
        return false;
    }
    let he = fe < n && (s[fe] == 101 || s[fe] == 69);
    if !he {
        return fe == n;
    }
    let eds: usize = if fe + 1 < n && (s[fe + 1] == 43 || s[fe + 1] == 45) {
        fe + 2
    } else {
        fe + 1
    };
    assert(eds == exp_digits_start(s@));
    let ee = scan_digits(s, eds);
    ee == n && ee > eds && ee - eds <= 9
}

/// One exact decimal numeral, held as the byte token that carries it on the
/// wire.
#[derive(Debug)]
pub struct Decimal {
    bytes: Vec<u8>,
}

impl View for Decimal {
    type V = Seq<u8>;

    closed spec fn view(&self) -> Seq<u8> {
        self.bytes@
    }
}

impl Decimal {
    /// Every held numeral is a well-formed token.
    #[verifier::type_invariant]
    pub open spec fn wf(self) -> bool {
        is_decimal_token(self@)
    }

    /// Accepts the bytes as a numeral if they form one well-formed token.
    pub fn from_bytes(bytes: Vec<u8>) -> (r: Result<Decimal, ConfigurationError>)
        ensures
            r is Ok <==> is_decimal_token(bytes@),
            r matches Ok(d) ==> d@ == bytes@,
    {
        if check_token(&bytes) {
            Ok(Decimal { bytes })
        } else {
            Err(ConfigurationError)
        }
    }

    /// The token's bytes.
    pub fn bytes(&self) -> (r: &Vec<u8>)
        ensures
            r@ == self@,
            is_decimal_token(self@),
    {
        proof {
            use_type_invariant(self);
        }
        &self.bytes
    }

    /// A second copy of the numeral.
    pub fn duplicate(&self) -> (r: Decimal)
        ensures
            r@ == self@,
    {
        proof {
            use_type_invariant(self);
        }
        let bytes = copy_range(&self.bytes, 0, self.bytes.len());
        assert(bytes@ =~= self@);
        Decimal { bytes }
    }
}


/// Concatenation law of numeral values:
/// `ab` reads as `a` shifted left by `b`'s width, plus `b`.
pub proof fn lemma_digits_val_concat(a: Seq<u8>, b: Seq<u8>)
    ensures
        digits_val(a + b) == digits_val(a) * pow10(b.len()) + digits_val(b),
    decreases b.len(),
{
    if b.len() == 0 {
        assert(a + b =~= a);
        assert(pow10(0) == 1);
        assert(digits_val(b) == 0);
    } else {
        let bd = b.drop_last();
        let d = digit_val(b.last());
        lemma_digits_val_concat(a, bd);
        assert((a + b).drop_last() =~= a + bd);
        assert((a + b).last() == b.last());
        assert(digits_val(a + b) == digits_val(a + bd) * 10 + d);
        assert(digits_val(b) == digits_val(bd) * 10 + d);
        assert(bd.len() == b.len() - 1);
        assert(pow10(b.len()) == 10 * pow10(bd.len()));
        assert(digits_val(a + b) == digits_val(a) * pow10(b.len()) + digits_val(b))
            by (nonlinear_arith)
            requires
                digits_val(a + b) == (digits_val(a) * pow10(bd.len()) + digits_val(bd)) * 10 + d,
                digits_val(b) == digits_val(bd) * 10 + d,
                pow10(b.len()) == 10 * pow10(bd.len()),
        ;
    }
}

/// Ten to any power is at least one.
pub proof fn lemma_pow10_pos(e: nat)
    ensures
        pow10(e) >= 1,
    decreases e,
{
    if e > 0 {
        lemma_pow10_pos((e - 1) as nat);
    }
}

/// Powers of ten multiply by adding exponents.
pub proof fn lemma_pow10_adds(a: nat, b: nat)
    ensures
        pow10(a + b) == pow10(a) * pow10(b),
    decreases a,
{
    if a == 0 {
        assert(pow10(a) == 1);
        assert(a + b == b);
    } else {
        lemma_pow10_adds((a - 1) as nat, b);
        assert(pow10(a + b) == 10 * pow10((a + b - 1) as nat));
        assert(pow10(a) == 10 * pow10((a - 1) as nat));
        assert(pow10(a + b) == pow10(a) * pow10(b)) by (nonlinear_arith)
            requires
                pow10(a + b) == 10 * pow10((a + b - 1) as nat),
                pow10((a + b - 1) as nat) == pow10((a - 1) as nat) * pow10(b),
                pow10(a) == 10 * pow10((a - 1) as nat),
        ;
    }
}

/// Powers of ten grow with the exponent.
pub proof fn lemma_pow10_mono(a: nat, b: nat)
    requires
        a <= b,
    ensures
        pow10(a) <= pow10(b),
{
    lemma_pow10_adds(a, (b - a) as nat);
    lemma_pow10_pos(a);
    lemma_pow10_pos((b - a) as nat);
    assert(pow10(a) * 1 <= pow10(a) * pow10((b - a) as nat)) by (nonlinear_arith)
        requires
            pow10(a) >= 1,
            pow10((b - a) as nat) >= 1,
    ;
}

/// A numeral of `n` digits is below ten to the `n`.
pub proof fn lemma_digits_val_bound(s: Seq<u8>)
    requires
        all_digits(s),
    ensures
        digits_val(s) < pow10(s.len()),
    decreases s.len(),
{
    if s.len() > 0 {
        let sd = s.drop_last();
        lemma_digits_val_bound(sd);
        assert(digit_val(s.last()) <= 9);
        assert(digits_val(sd) * 10 <= (pow10(sd.len()) - 1) * 10) by (nonlinear_arith)
            requires
                digits_val(sd) <= pow10(sd.len()) - 1,
        ;
    }
}

/// A numeral is zero exactly when all its digits are `0`.
pub proof fn lemma_digits_val_zero(s: Seq<u8>)
    requires
        all_digits(s),
    ensures
        digits_val(s) == 0 <==> (forall|i: int| 0 <= i < s.len() ==> s[i] == 48),
    decreases s.len(),
{
    if s.len() > 0 {
        let sd = s.drop_last();
        lemma_digits_val_zero(sd);
        assert(forall|i: int| 0 <= i < sd.len() ==> sd[i] == s[i]);
        if digits_val(s) == 0 {
            assert(digits_val(sd) == 0);
            assert(s.last() == 48);
            assert(forall|i: int| 0 <= i < s.len() - 1 ==> s[i] == 48);
        }
    }
}

/// A numeral splits into its leading digit and the rest.
pub proof fn lemma_digits_val_leading(s: Seq<u8>)
    requires
        s.len() > 0,
    ensures
        digits_val(s) == digit_val(s[0]) * pow10((s.len() - 1) as nat) + digits_val(s.skip(1)),
{
    let a = s.subrange(0, 1);
    let b = s.skip(1);
    assert(s =~= a + b);
    lemma_digits_val_concat(a, b);
    assert(a.drop_last() =~= Seq::<u8>::empty());
    assert(digits_val(a.drop_last()) == 0);
    assert(a.last() == s[0]);
    assert(digits_val(a) == digit_val(s[0]));
}

/// Leading zero digits do not change a numeral's value.
pub proof fn lemma_digits_val_skip_zeros(s: Seq<u8>, k: int)
    requires
        0 <= k <= s.len(),
        forall|i: int| 0 <= i < k ==> s[i] == 48,
    ensures
        digits_val(s) == digits_val(s.skip(k)),
    decreases k,
{
    if k > 0 {
        lemma_digits_val_leading(s);
        assert(digit_val(s[0]) == 0);
        let t = s.skip(1);
        assert(forall|i: int| 0 <= i < k - 1 ==> t[i] == 48);
        lemma_digits_val_skip_zeros(t, k - 1);
        assert(t.skip(k - 1) =~= s.skip(k));
    } else {
        assert(s.skip(k) =~= s);
    }
}

/// Bounds of a numeral with a known leading digit: with `n` digits and
/// leading digit `d`, the value lies in `[d * 10^(n-1), (d+1) * 10^(n-1))`.
pub proof fn lemma_digits_val_leading_bounds(s: Seq<u8>)
    requires
        all_digits(s),
        s.len() > 0,
    ensures
        digit_val(s[0]) * pow10((s.len() - 1) as nat) <= digits_val(s),
        digits_val(s) < (digit_val(s[0]) + 1) * pow10((s.len() - 1) as nat),
{
    lemma_digits_val_leading(s);
    let rest = s.skip(1);
    assert(all_digits(rest));
    lemma_digits_val_bound(rest);
    let p = pow10((s.len() - 1) as nat);
    assert(digit_val(s[0]) * p + digits_val(rest) < (digit_val(s[0]) + 1) * p) by (nonlinear_arith)
        requires
            digits_val(rest) < p,
    ;
}

/// Every byte up to a scanned digit end is a digit, and the scan stops at the
/// first non-digit.
pub proof fn lemma_digits_end_digits(s: Seq<u8>, i: int)
    requires
        0 <= i <= s.len(),
    ensures
        forall|j: int| i <= j < digits_end(s, i) ==> is_digit(#[trigger] s[j]),
    decreases s.len() - i,
{
    if i < s.len() && is_digit(s[i]) {
        lemma_digits_end_digits(s, i + 1);
    }
}

/// A digit scan from `i` ends exactly at `j` when everything before `j` is a
/// digit and `j` is the end or holds a non-digit.
pub proof fn lemma_digits_end_of(s: Seq<u8>, i: int, j: int)
    requires
        0 <= i <= j <= s.len(),
        forall|k: int| i <= k < j ==> is_digit(#[trigger] s[k]),
        j == s.len() || !is_digit(s[j]),
    ensures
        digits_end(s, i) == j,
    decreases j - i,
{
    if i < j {
        lemma_digits_end_of(s, i + 1, j);
    }
}


/// Small powers of ten, written out.
pub proof fn lemma_pow10_values()
    ensures
        pow10(0) == 1,
        pow10(1) == 10,
        pow10(8) == 100000000,
        pow10(9) == 1000000000,
{
    assert(pow10(0) == 1);
    assert(pow10(1) == 10);
    assert(pow10(2) == 100);
    assert(pow10(3) == 1000);
    assert(pow10(4) == 10000);
    assert(pow10(5) == 100000);
    assert(pow10(6) == 1000000);
    assert(pow10(7) == 10000000);
    assert(pow10(8) == 100000000);
    assert(pow10(9) == 1000000000);
}

/// The structural marks of a well-formed token.
struct Marks {
    sl: usize,
    ie: usize,
    fe: usize,
    hf: bool,
    he: bool,
    eneg: bool,
    eds: usize,
    ee: usize,
}

/// Recomputes the structural marks of a well-formed token.
fn token_marks(t: &Vec<u8>) -> (m: Marks)
    requires
        is_decimal_token(t@),
    ensures
        m.sl as int == sign_len(t@),
        m.ie as int == int_end(t@),
        m.hf == has_frac(t@),
        m.fe as int == frac_end(t@),
        m.he == has_exp(t@),
        m.eneg == exp_neg(t@),
        m.he ==> m.eds as int == exp_digits_start(t@),
        m.he ==> m.ee as int == exp_end(t@),
        m.sl <= m.ie <= m.fe <= t@.len(),
        m.hf ==> m.ie + 1 <= m.fe,
        m.he ==> m.fe < m.eds <= m.ee <= t@.len(),
{
    let n = t.len();
    let sl: usize = if n > 0 && (t[0] == 43 || t[0] == 45) {
        1
    } else {
        0
    };
    assert(sl as int == sign_len(t@));
    let ie = scan_digits(t, sl);
    let hf = ie < n && t[ie] == 46;
    let fe = if hf {
        scan_digits(t, ie + 1)
    } else {
        ie
    };
    let he = fe < n && (t[fe] == 101 || t[fe] == 69);
    let eneg = he && fe + 1 < n && t[fe + 1] == 45;
    if he {
        let eds: usize = if fe + 1 < n && (t[fe + 1] == 43 || t[fe + 1] == 45) {
            fe + 2
        } else {
            fe + 1
        };
        assert(eds as int == exp_digits_start(t@));
        let ee = scan_digits(t, eds);
        Marks { sl, ie, fe, hf, he, eneg, eds, ee }
    } else {
        Marks { sl, ie, fe, hf, he, eneg, eds: fe, ee: fe }
    }
}

/// Reads at most nine digits as one number.
fn parse_small_digits(t: &Vec<u8>, from: usize, to: usize) -> (v: u32)
    requires
        from <= to <= t@.len(),
        to - from <= 9,
        forall|j: int| from <= j < to ==> is_digit(#[trigger] t@[j]),
    ensures
        v as nat == digits_val(t@.subrange(from as int, to as int)),
        v < 1000000000,
{
    let mut v: u32 = 0;
    let mut i = from;
    while i < to
        invariant
            from <= i <= to <= t@.len(),
            to - from <= 9,
            forall|j: int| from <= j < to ==> is_digit(#[trigger] t@[j]),
            v as nat == digits_val(t@.subrange(from as int, i as int)),
            (v as nat) < pow10((i - from) as nat),
        decreases to - i,
    {
        proof {
            lemma_pow10_mono((i - from) as nat, 8);
            lemma_pow10_values();
            let sub1 = t@.subrange(from as int, i + 1);
            assert(sub1.drop_last() =~= t@.subrange(from as int, i as int));
            assert(sub1.last() == t@[i as int]);
        }
        let d = t[i] - 48;
        v = v * 10 + d as u32;
        i = i + 1;
        assert(pow10((i - from) as nat) == 10 * pow10((i - 1 - from) as nat));
    }
    proof {
        lemma_pow10_mono((to - from) as nat, 9);
        lemma_pow10_values();
    }
    v
}

/// First position in `[from, to)` that holds a byte other than `0`
/// (or `to` if all are `0`).
fn scan_nonzero(t: &Vec<u8>, from: usize, to: usize) -> (z: usize)
    requires
        from <= to <= t@.len(),
    ensures
        from <= z <= to,
        forall|j: int| from <= j < z ==> t@[j] == 48,
        z < to ==> t@[z as int] != 48,
{
    let mut i = from;
    while i < to && t[i] == 48
        invariant
            from <= i <= to <= t@.len(),
            forall|j: int| from <= j < i ==> t@[j] == 48,
        decreases to - i,
    {
        i = i + 1;
    }
    i
}

/// Case analysis that decides `m * 10^p <= b * 10^-q` from the stripped
/// mantissa's width and leading digit. With `z` leading zeros stripped and
/// `ell` the count of digits standing before the decimal point of the
/// magnitude, the magnitude is below one for `ell <= 0`, at least ten for
/// `ell >= 2`, and for `ell == 1` the leading digit decides.
proof fn lemma_scaled_le_cases(m: Seq<u8>, z: int, p: int, b: nat, q: int)
    requires
        all_digits(m),
        0 <= z < m.len(),
        forall|i: int| 0 <= i < z ==> m[i] == 48,
        m[z] != 48,
        1 <= b <= 9,
    ensures
        ({
            let ms = m.skip(z);
            let ell = ms.len() + p + q;
            let d0 = digit_val(m[z]);
            &&& ell <= 0 ==> scaled_le(digits_val(m), p, b, q)
            &&& ell >= 2 ==> !scaled_le(digits_val(m), p, b, q)
            &&& (ell == 1 && d0 < b) ==> scaled_le(digits_val(m), p, b, q)
            &&& (ell == 1 && d0 > b) ==> !scaled_le(digits_val(m), p, b, q)
            &&& (ell == 1 && d0 == b) ==> (scaled_le(digits_val(m), p, b, q) <==> digits_val(
                ms.skip(1),
            ) == 0)
        }),
{
    let ms = m.skip(z);
    lemma_digits_val_skip_zeros(m, z);
    assert(all_digits(ms));
    assert(ms[0] == m[z]);
    lemma_digits_val_leading_bounds(ms);
    let n = ms.len() as int;
    let d0 = digit_val(m[z]);
    assert(1 <= d0 <= 9);
    let v = digits_val(m);
    let pl = pow10((n - 1) as nat);
    lemma_pow10_pos((n - 1) as nat);
    assert(d0 * pl <= v < (d0 + 1) * pl);
    let cap = p + q;
    let ell = n + cap;
    if cap >= 0 {
        let pp = pow10(cap as nat);
        lemma_pow10_pos(cap as nat);
        assert(ell >= 1);
        if ell >= 2 {
            lemma_pow10_adds((n - 1) as nat, cap as nat);
            lemma_pow10_mono(1, (ell - 1) as nat);
            lemma_pow10_values();
            assert(v * pp >= pow10((ell - 1) as nat)) by (nonlinear_arith)
                requires
                    v >= d0 * pl,
                    d0 >= 1,
                    pl >= 1,
                    pp >= 1,
                    pl * pp == pow10((ell - 1) as nat),
            ;
            assert(v * pp >= 10);
        } else {
            assert(ell == 1);
            assert(cap == 0 && n == 1);
            assert(pp == 1);
            assert(pl == 1);
            assert(v == d0) by (nonlinear_arith)
                requires
                    d0 * pl <= v < (d0 + 1) * pl,
                    pl == 1,
            ;
            assert(ms.skip(1) =~= Seq::<u8>::empty());
            assert(digits_val(ms.skip(1)) == 0);
            assert(v * pp == v) by (nonlinear_arith)
                requires
                    pp == 1,
            ;
        }
    } else {
        let pn = pow10((-cap) as nat);
        lemma_pow10_pos((-cap) as nat);
        if ell <= 0 {
            lemma_digits_val_bound(ms);
            lemma_pow10_mono(n as nat, (-cap) as nat);
            assert(v < pn);
            assert(pn <= b * pn) by (nonlinear_arith)
                requires
                    b >= 1,
                    pn >= 0,
            ;
        } else if ell >= 2 {
            lemma_pow10_mono((-cap + 1) as nat, (n - 1) as nat);
            assert(pow10((-cap + 1) as nat) == 10 * pn);
            assert(v >= pl) by (nonlinear_arith)
                requires
                    v >= d0 * pl,
                    d0 >= 1,
                    pl >= 0,
            ;
            assert(10 * pn > b * pn) by (nonlinear_arith)
                requires
                    b <= 9,
                    pn >= 1,
            ;
            assert(v > b * pn);
        } else {
            assert(ell == 1);
            assert((n - 1) as nat == (-cap) as nat);
            assert(pl == pn);
            lemma_digits_val_leading(ms);
            let rest = digits_val(ms.skip(1));
            lemma_digits_val_bound(ms.skip(1));
            assert(ms.skip(1).len() == n - 1);
            assert(rest < pn);
            assert(v == d0 * pn + rest);
            if d0 < b {
                assert((d0 + 1) * pn <= b * pn) by (nonlinear_arith)
                    requires
                        d0 + 1 <= b,
                        pn >= 0,
                ;
            } else if d0 > b {
                assert(d0 * pn >= (b + 1) * pn) by (nonlinear_arith)
                    requires
                        d0 >= b + 1,
                        pn >= 0,
                ;
                assert((b + 1) * pn == b * pn + pn) by (nonlinear_arith);
            } else {
                assert(v == b * pn + rest);
            }
        }
    }
}

impl Decimal {
    /// The numeral denotes a negative quantity (it has a leading `-`).
    pub fn is_negative(&self) -> (r: bool)
        ensures
            r == token_neg(self@),
    {
        proof {
            use_type_invariant(self);
        }
        self.bytes.len() > 0 && self.bytes[0] == 45
    }

    /// Decides exactly whether the numeral's magnitude is at most
    /// `b * 10^-q`, for a single bound digit `b`.
    #[verifier::rlimit(80)]
    pub fn magnitude_le(&self, b: u8, q: u8) -> (r: bool)
        requires
            1 <= b <= 9,
        ensures
            r == scaled_le(mant_val(self@), scale(self@), b as nat, q as int),
    {
        proof {
            use_type_invariant(self);
        }
        let t = &self.bytes;
        let mk = token_marks(t);
        let mut mant = copy_range(t, mk.sl, mk.ie);
        if mk.hf {
            let mut f = copy_range(t, mk.ie + 1, mk.fe);
            mant.append(&mut f);
        }
        proof {
            assert(mant@ =~= mant_digits(self@));
            lemma_digits_end_digits(t@, sign_len(t@));
            if has_frac(t@) {
                lemma_digits_end_digits(t@, int_end(t@) + 1);
            }
            assert(all_digits(mant@));
        }
        let frac_len: usize = if mk.hf {
            mk.fe - (mk.ie + 1)
        } else {
            0
        };
        let e: u32 = if mk.he {
            proof {
                lemma_digits_end_digits(t@, exp_digits_start(t@));
            }
            parse_small_digits(t, mk.eds, mk.ee)
        } else {
            0
        };
        let p: i128 = if mk.eneg {
            -(e as i128) - frac_len as i128
        } else {
            e as i128 - frac_len as i128
        };
        proof {
            assert(frac_len as int == frac_digits(self@).len());
            if mk.he {
                assert(e as nat == digits_val(exp_digits(self@)));
            } else {
                assert(exp_digits(self@) =~= Seq::<u8>::empty());
                assert(digits_val(exp_digits(self@)) == 0);
            }
            assert(p as int == scale(self@));
        }
        let z = scan_nonzero(&mant, 0, mant.len());
        if z == mant.len() {
            proof {
                lemma_digits_val_zero(mant@);
                assert(mant_val(self@) == 0);
                let cap = p as int + q as int;
                if cap >= 0 {
                    assert((0 as nat) * pow10(cap as nat) == 0) by (nonlinear_arith);
                }
                assert(scaled_le(0, p as int, b as nat, q as int));
            }
            return true;
        }
        let d0 = mant[z];
        proof {
            lemma_scaled_le_cases(mant@, z as int, p as int, b as nat, q as int);
        }
        let ell: i128 = (mant.len() - z) as i128 + p + q as i128;
        assert(ell as int == mant@.skip(z as int).len() + p + q);
        if ell <= 0 {
            true
        } else if ell >= 2 {
            false
        } else if d0 < b + 48 {
            true
        } else if d0 > b + 48 {
            false
        } else {
            let z2 = scan_nonzero(&mant, z + 1, mant.len());
            proof {
                let rest = mant@.skip(z as int).skip(1);
                assert(rest =~= mant@.skip(z + 1));
                assert(all_digits(rest));
                lemma_digits_val_zero(rest);
                if z2 < mant.len() {
                    assert(rest[z2 - (z as int + 1)] == mant@[z2 as int]);
                    assert(rest[z2 - (z as int + 1)] != 48);
                    assert(digits_val(rest) != 0);
                } else {
                    assert(forall|i: int| 0 <= i < rest.len() ==> rest[i] == 48);
                    assert(digits_val(rest) == 0);
                }
            }
            z2 == mant.len()
        }
    }
}


/// The token's numeral with its decimal point moved three places right:
/// the same digits denote a thousand times the value. Used to write a
/// quantity held in a base unit as its milli-unit numeral. The sign and any
/// exponent part are kept as they stand; missing fraction digits are filled
/// with zeros.
pub open spec fn shifted_milli(s: Seq<u8>) -> Seq<u8> {
    let sign = s.subrange(0, sign_len(s));
    let i = int_digits(s);
    let f = frac_digits(s);
    let e = s.subrange(frac_end(s), s.len() as int);
    if f.len() > 3 {
        sign + i + f.take(3) + seq![46u8] + f.skip(3) + e
    } else {
        sign + i + f + Seq::new((3 - f.len()) as nat, |k: int| 48u8) + e
    }
}

impl Decimal {
    /// The numeral rewritten from a base unit to its milli unit: the decimal
    /// point moves three places right, so the written value is exactly a
    /// thousand times this token's value. No rounding is involved.
    pub fn to_milli_bytes(&self) -> (r: Vec<u8>)
        ensures
            r@ == shifted_milli(self@),
    {
        proof {
            use_type_invariant(self);
        }
        let t = &self.bytes;
        let mk = token_marks(t);
        let fl: usize = if mk.hf {
            mk.fe - (mk.ie + 1)
        } else {
            0
        };
        let mut out = copy_range(t, 0, mk.sl);
        let mut ipart = copy_range(t, mk.sl, mk.ie);
        out.append(&mut ipart);
        if mk.hf && fl > 3 {
            let mut f3 = copy_range(t, mk.ie + 1, mk.ie + 1 + 3);
            out.append(&mut f3);
            out.push(46);
            let mut frest = copy_range(t, mk.ie + 1 + 3, mk.fe);
            out.append(&mut frest);
            proof {
                assert(frac_digits(self@).take(3) =~= t@.subrange(
                    mk.ie + 1,
                    mk.ie + 1 + 3,
                ));
                assert(frac_digits(self@).skip(3) =~= t@.subrange(mk.ie + 1 + 3, mk.fe as int));
            }
        } else {
            if mk.hf {
                let mut f = copy_range(t, mk.ie + 1, mk.fe);
                out.append(&mut f);
            }
            let mut pad: usize = 3 - fl;
            while pad > 0
                invariant
                    pad <= 3 - fl,
                    fl <= 3,
                    out@ == t@.subrange(0, sign_len(t@)) + int_digits(t@) + frac_digits(t@)
                        + Seq::new((3 - fl - pad) as nat, |k: int| 48u8),
                decreases pad,
            {
                out.push(48);
                proof {
                    assert(out@.drop_last() + seq![48u8] =~= out@);
                    let zs = Seq::new((3 - fl - pad) as nat, |k: int| 48u8);
                    let zs1 = Seq::new((3 - fl - (pad - 1)) as nat, |k: int| 48u8);
                    assert(zs + seq![48u8] =~= zs1);
                }
                pad = pad - 1;
            }
            proof {
                if mk.hf {
                    assert(frac_digits(self@) =~= t@.subrange(mk.ie + 1, mk.fe as int));
                } else {
                    assert(frac_digits(self@) =~= Seq::<u8>::empty());
                }
            }
        }
        let mut epart = copy_range(t, mk.fe, t.len());
        out.append(&mut epart);
        proof {
            assert(int_digits(self@) =~= t@.subrange(sign_len(t@), int_end(t@)));
            assert(out@ =~= shifted_milli(self@));
        }
        out
    }
}


/// The canonical decimal numeral of an unsigned integer: no sign, no leading
/// zero (except for zero itself).
pub open spec fn dec_rep(n: nat) -> Seq<u8>
    decreases n,
{
    if n < 10 {
        seq![(48 + n) as u8]
    } else {
        dec_rep(n / 10) + seq![(48 + n % 10) as u8]
    }
}

/// The canonical numeral of `n` reads back as `n`, holds only digits, and
/// never starts with `0` unless it is `0` itself.
pub proof fn lemma_dec_rep(n: nat)
    ensures
        all_digits(dec_rep(n)),
        digits_val(dec_rep(n)) == n,
        dec_rep(n).len() >= 1,
        dec_rep(n)[0] == 48 ==> n == 0,
    decreases n,
{
    if n < 10 {
        let s = dec_rep(n);
        assert(s.len() == 1);
        assert(s.drop_last() =~= Seq::<u8>::empty());
        assert(digits_val(s.drop_last()) == 0);
        assert(digits_val(s) == digit_val(s[0]));
    } else {
        lemma_dec_rep(n / 10);
        let a = dec_rep(n / 10);
        let b = seq![(48 + n % 10) as u8];
        lemma_digits_val_concat(a, b);
        assert(b.drop_last() =~= Seq::<u8>::empty());
        assert(digits_val(b.drop_last()) == 0);
        assert(digits_val(b) == digit_val(b[0]));
        lemma_pow10_values();
        assert(digits_val(a) * 10 + n % 10 == n) by (nonlinear_arith)
            requires
                digits_val(a) == n / 10,
                n >= 10,
        ;
        assert((a + b)[0] == a[0]);
    }
}

/// Appends the canonical decimal numeral of `n`.
pub fn push_uint(out: &mut Vec<u8>, n: u64)
    ensures
        final(out)@ == old(out)@ + dec_rep(n as nat),
    decreases n,
{
    if n < 10 {
        out.push(48 + n as u8);
        assert(out@ =~= old(out)@ + dec_rep(n as nat));
    } else {
        push_uint(out, n / 10);
        out.push(48 + (n % 10) as u8);
        assert(out@ =~= old(out)@ + (dec_rep((n / 10) as nat) + seq![(48 + (n as nat) % 10) as u8]));
        assert(dec_rep(n as nat) == dec_rep((n as nat) / 10) + seq![(48 + (n as nat) % 10) as u8]);
    }
}

/// A value is bounded by the value of any digit run that extends it to the
/// right.
pub proof fn lemma_digits_val_prefix_le(a: Seq<u8>, b: Seq<u8>)
    ensures
        digits_val(a) <= digits_val(a + b),
{
    lemma_digits_val_concat(a, b);
    lemma_pow10_pos(b.len());
    assert(digits_val(a) * 1 <= digits_val(a) * pow10(b.len())) by (nonlinear_arith)
        requires
            pow10(b.len()) >= 1,
    ;
}


/// A digit scan stays between its start and the end of the sequence.
pub proof fn lemma_digits_end_bounds(s: Seq<u8>, i: int)
    requires
        0 <= i <= s.len(),
    ensures
        i <= digits_end(s, i) <= s.len(),
    decreases s.len() - i,
{
    if i < s.len() && is_digit(s[i]) {
        lemma_digits_end_bounds(s, i + 1);
    }
}

/// A number scan from `i` ends exactly at `j` when everything before `j` is
/// a number byte and `j` is the end or holds none.
pub proof fn lemma_number_end_of(s: Seq<u8>, i: int, j: int)
    requires
        0 <= i <= j <= s.len(),
        forall|k: int| i <= k < j ==> is_number_byte(#[trigger] s[k]),
        j == s.len() || !is_number_byte(s[j]),
    ensures
        number_end(s, i) == j,
    decreases j - i,
{
    if i < j {
        lemma_number_end_of(s, i + 1, j);
    }
}

/// Every byte of a well-formed numeral is a number byte.
pub proof fn lemma_token_number_bytes(s: Seq<u8>)
    requires
        is_decimal_token(s),
    ensures
        forall|i: int| 0 <= i < s.len() ==> is_number_byte(#[trigger] s[i]),
{
    let sl = sign_len(s);
    let ie = int_end(s);
    let fe = frac_end(s);
    let eds = exp_digits_start(s);
    let ee = exp_end(s);
    lemma_digits_end_bounds(s, sl);
    lemma_digits_end_digits(s, sl);
    if has_frac(s) {
        lemma_digits_end_bounds(s, ie + 1);
        lemma_digits_end_digits(s, ie + 1);
    }
    if has_exp(s) {
        lemma_digits_end_bounds(s, eds);
        lemma_digits_end_digits(s, eds);
    }
    assert forall|i: int| 0 <= i < s.len() implies is_number_byte(#[trigger] s[i]) by {
        if i < sl {
            assert(s[0] == 43 || s[0] == 45);
        } else if i < ie {
            assert(is_digit(s[i]));
        } else if has_frac(s) && i == ie {
            assert(s[i] == 46);
        } else if has_frac(s) && i < fe {
            assert(is_digit(s[i]));
        } else if has_exp(s) && i == fe {
            assert(s[i] == 101 || s[i] == 69);
        } else if has_exp(s) && i < eds {
            assert(i == fe + 1);
            assert(s[i] == 43 || s[i] == 45);
        } else if has_exp(s) && i < ee {
            assert(is_digit(s[i]));
        } else {
            assert(false);
        }
    }
}


/// Printable ASCII: in particular no line terminator and no control byte.
pub open spec fn clean_ascii_line(s: Seq<u8>) -> bool {
    forall|i: int| 0 <= i < s.len() ==> 32 <= #[trigger] s[i] < 127
}

/// Printable ASCII survives concatenation.
pub proof fn lemma_clean_concat(a: Seq<u8>, b: Seq<u8>)
    requires
        clean_ascii_line(a),
        clean_ascii_line(b),
    ensures
        clean_ascii_line(a + b),
{
    assert forall|i: int| 0 <= i < (a + b).len() implies 32 <= #[trigger] (a + b)[i] < 127 by {
        if i < a.len() {
            assert((a + b)[i] == a[i]);
        } else {
            assert((a + b)[i] == b[i - a.len()]);
        }
    }
}

/// A well-formed numeral is printable ASCII.
pub proof fn lemma_token_clean(s: Seq<u8>)
    requires
        is_decimal_token(s),
    ensures
        clean_ascii_line(s),
{
    lemma_token_number_bytes(s);
}

/// A canonical integer numeral is printable ASCII.
pub proof fn lemma_dec_rep_clean(n: nat)
    ensures
        clean_ascii_line(dec_rep(n)),
{
    lemma_dec_rep(n);
}

/// The milli-unit rewriting of a well-formed numeral is printable ASCII.
pub proof fn lemma_shifted_milli_clean(s: Seq<u8>)
    requires
        is_decimal_token(s),
    ensures
        clean_ascii_line(shifted_milli(s)),
{
    lemma_token_number_bytes(s);
    let sign = s.subrange(0, sign_len(s));
    let i = int_digits(s);
    let f = frac_digits(s);
    let e = s.subrange(frac_end(s), s.len() as int);
    lemma_digits_end_bounds(s, sign_len(s));
    if has_frac(s) {
        lemma_digits_end_bounds(s, int_end(s) + 1);
    }
    assert(clean_ascii_line(sign));
    assert(clean_ascii_line(i));
    assert(clean_ascii_line(f));
    assert(clean_ascii_line(e));
    if f.len() > 3 {
        assert(clean_ascii_line(f.take(3)));
        assert(clean_ascii_line(f.skip(3)));
        assert(clean_ascii_line(seq![46u8]));
        lemma_clean_concat(sign, i);
        lemma_clean_concat(sign + i, f.take(3));
        lemma_clean_concat(sign + i + f.take(3), seq![46u8]);
        lemma_clean_concat(sign + i + f.take(3) + seq![46u8], f.skip(3));
        lemma_clean_concat(sign + i + f.take(3) + seq![46u8] + f.skip(3), e);
    } else {
        let zs = Seq::new((3 - f.len()) as nat, |k: int| 48u8);
        assert(clean_ascii_line(zs));
        lemma_clean_concat(sign, i);
        lemma_clean_concat(sign + i, f);
        lemma_clean_concat(sign + i + f, zs);
        lemma_clean_concat(sign + i + f + zs, e);
    }
}


/// The milli-unit rewriting is exact: it yields a well-formed numeral with
/// the same sign whose magnitude is exactly a thousand times the original's,
/// `mant * 10^scale` against `mant' * 10^(scale + 3)`.
pub proof fn lemma_shifted_milli_value(s: Seq<u8>)
    requires
        is_decimal_token(s),
    ensures
        ({
            let r = shifted_milli(s);
            &&& is_decimal_token(r)
            &&& token_neg(r) == token_neg(s)
            &&& scaled_eq(mant_val(r), scale(r), mant_val(s), scale(s) + 3)
        }),
{
    let sl = sign_len(s);
    let ie = int_end(s);
    let fe = frac_end(s);
    let a = s.subrange(0, sl);
    let i = int_digits(s);
    let f = frac_digits(s);
    let e = s.subrange(fe, s.len() as int);
    let r = shifted_milli(s);
    lemma_digits_end_bounds(s, sl);
    lemma_digits_end_digits(s, sl);
    if has_frac(s) {
        lemma_digits_end_bounds(s, ie + 1);
        lemma_digits_end_digits(s, ie + 1);
    }
    if has_exp(s) {
        lemma_digits_end_bounds(s, exp_digits_start(s));
        lemma_digits_end_digits(s, exp_digits_start(s));
    }
    if f.len() > 3 {
        let d = i + f.take(3);
        let g = f.skip(3);
        assert(r =~= a + d + seq![46u8] + g + e);
        let rie = sl + d.len() as int;
        let rfe = rie + 1 + g.len() as int;
        assert(all_digits(d));
        assert(all_digits(g));
        lemma_milli_structure(s, r, d, g, true);
        assert(mant_digits(r) =~= d + g);
        assert(d + g =~= mant_digits(s));
        assert(frac_digits(r).len() == f.len() - 3);
        assert(exp_digits(r) =~= exp_digits(s));
        assert(exp_neg(r) == exp_neg(s));
        assert(scale(r) == scale(s) + 3);
        assert(pow10(0) == 1);
        assert(is_decimal_token(r));
        assert(token_neg(r) == token_neg(s));
        assert(mant_val(r) == mant_val(s));
        assert(mant_val(r) * pow10(0) == mant_val(s)) by (nonlinear_arith)
            requires
                mant_val(r) == mant_val(s),
                pow10(0) == 1,
        ;
        assert(scaled_eq(mant_val(r), scale(r), mant_val(s), scale(s) + 3));
    } else {
        let z = Seq::new((3 - f.len()) as nat, |k: int| 48u8);
        let d = i + f + z;
        assert(r =~= a + d + Seq::<u8>::empty() + Seq::<u8>::empty() + e);
        assert(all_digits(d));
        lemma_milli_structure(s, r, d, Seq::<u8>::empty(), false);
        assert(mant_digits(r) =~= d);
        lemma_digits_val_concat(i + f, z);
        assert(all_digits(z));
        lemma_digits_val_zero(z);
        assert(mant_digits(s) == i + f);
        assert(mant_val(r) == mant_val(s) * pow10(z.len()));
        assert(frac_digits(r).len() == 0);
        assert(exp_digits(r) =~= exp_digits(s));
        assert(exp_neg(r) == exp_neg(s));
        assert(scale(r) == exp_val(s));
        assert(scale(s) + 3 - scale(r) == 3 - f.len());
        assert(is_decimal_token(r));
        assert(token_neg(r) == token_neg(s));
        if f.len() == 3 {
            assert(pow10(0) == 1);
            assert(z.len() == 0);
            assert(mant_val(r) * pow10(0) == mant_val(s)) by (nonlinear_arith)
                requires
                    mant_val(r) == mant_val(s) * pow10(0),
                    pow10(0) == 1,
            ;
        }
        assert(scaled_eq(mant_val(r), scale(r), mant_val(s), scale(s) + 3));
    }
}

/// Structural facts of the rewritten numeral `r = sign + d (+ '.' + g) + e`:
/// where its parts begin and end, and that it is a well-formed numeral whose
/// exponent is the original's.
proof fn lemma_milli_structure(s: Seq<u8>, r: Seq<u8>, d: Seq<u8>, g: Seq<u8>, dotted: bool)
    requires
        is_decimal_token(s),
        all_digits(d),
        all_digits(g),
        d.len() >= 1,
        dotted ==> g.len() >= 1,
        dotted ==> r =~= s.subrange(0, sign_len(s)) + d + seq![46u8] + g + s.subrange(
            frac_end(s),
            s.len() as int,
        ),
        !dotted ==> (g.len() == 0 && r =~= s.subrange(0, sign_len(s)) + d + s.subrange(
            frac_end(s),
            s.len() as int,
        )),
    ensures
        is_decimal_token(r),
        token_neg(r) == token_neg(s),
        sign_len(r) == sign_len(s),
        int_digits(r) == d,
        dotted ==> (has_frac(r) && frac_digits(r) == g),
        !dotted ==> (!has_frac(r) && frac_digits(r) == Seq::<u8>::empty()),
        has_exp(r) == has_exp(s),
        exp_neg(r) == exp_neg(s),
        exp_digits(r) =~= exp_digits(s),
{
    let sl = sign_len(s);
    let fe = frac_end(s);
    let e = s.subrange(fe, s.len() as int);
    let elen = e.len() as int;
    lemma_digits_end_bounds(s, sl);
    if has_frac(s) {
        lemma_digits_end_bounds(s, int_end(s) + 1);
    }
    if has_exp(s) {
        lemma_digits_end_bounds(s, exp_digits_start(s));
        lemma_digits_end_digits(s, exp_digits_start(s));
    }
    // The sign of the rewritten numeral.
    if sl == 1 {
        assert(r[0] == s[0]);
    } else {
        assert(r.len() > 0 && r[0] == d[0]);
        assert(is_digit(r[0]));
    }
    assert(sign_len(r) == sl);
    assert(token_neg(r) == token_neg(s));
    // The integer digits of the rewritten numeral run to the dot, the
    // exponent marker, or the end.
    let rie = sl + d.len() as int;
    assert(forall|j: int| sl <= j < rie ==> is_digit(#[trigger] r[j]));
    if dotted {
        assert(r[rie] == 46);
        lemma_digits_end_of(r, sl, rie);
        assert(int_end(r) == rie && has_frac(r));
        let rfe = rie + 1 + g.len() as int;
        assert(forall|j: int| rie + 1 <= j < rfe ==> is_digit(#[trigger] r[j]));
        assert(rfe == r.len() || r[rfe] == e[0]);
        if has_exp(s) {
            assert(r[rfe] == s[fe]);
            assert(!is_digit(r[rfe]));
        } else {
            assert(fe == s.len());
            assert(rfe == r.len());
        }
        lemma_digits_end_of(r, rie + 1, rfe);
        assert(frac_end(r) == rfe);
        assert(int_digits(r) =~= d);
        assert(frac_digits(r) =~= g);
        lemma_milli_exp(s, r, rfe);
    } else {
        if has_exp(s) {
            assert(r[rie] == s[fe]);
            assert(!is_digit(r[rie]));
        } else {
            assert(fe == s.len());
            assert(rie == r.len());
        }
        lemma_digits_end_of(r, sl, rie);
        assert(int_end(r) == rie);
        assert(!has_frac(r));
        assert(frac_end(r) == rie);
        assert(int_digits(r) =~= d);
        lemma_milli_exp(s, r, rie);
    }
}

/// The exponent part of the rewritten numeral, standing at `rfe`, reads as
/// the original's.
proof fn lemma_milli_exp(s: Seq<u8>, r: Seq<u8>, rfe: int)
    requires
        is_decimal_token(s),
        frac_end(r) == rfe,
        0 <= rfe <= r.len(),
        r.len() - rfe == s.len() - frac_end(s),
        forall|j: int|
            rfe <= j < r.len() ==> r[j] == s[frac_end(s) + (j - rfe)],
        has_frac(r) ==> frac_end(r) > int_end(r) + 1,
        int_end(r) > sign_len(r),
    ensures
        is_decimal_token(r),
        has_exp(r) == has_exp(s),
        exp_neg(r) == exp_neg(s),
        exp_digits(r) =~= exp_digits(s),
{
    let fe = frac_end(s);
    if has_exp(s) {
        lemma_digits_end_bounds(s, exp_digits_start(s));
        lemma_digits_end_digits(s, exp_digits_start(s));
        assert(r[rfe] == s[fe]);
        assert(has_exp(r));
        let off = exp_digits_start(s) - fe;
        assert(exp_digits_start(r) == rfe + off);
        let ree = rfe + (exp_end(s) - fe);
        assert(forall|j: int| rfe + off <= j < ree ==> is_digit(#[trigger] r[j]));
        assert(ree == r.len());
        lemma_digits_end_of(r, rfe + off, ree);
        assert(exp_end(r) == ree);
        assert(exp_digits(r) =~= exp_digits(s));
    } else {
        assert(fe == s.len());
        assert(rfe == r.len());
        assert(!has_exp(r));
        assert(exp_digits(r) =~= exp_digits(s));
    }
}

} // verus!
