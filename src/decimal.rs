//! Exact non-negative decimal quantities with eighteen fractional digits.
use vstd::prelude::*;

verus! {

/// Number of decimal digits kept after the point.
pub const SCALING_EXPONENT: u32 = 18;

/// Ten to the power `SCALING_EXPONENT`: the number of units in one.
pub const SCALING_FACTOR: u128 = 1_000_000_000_000_000_000;

/// Ten to the power `e`.
pub open spec fn pow10(e: nat) -> nat
    decreases e,
{
    if e == 0 {
        1
    } else {
        10 * pow10((e - 1) as nat)
    }
}

/// The number of units in one.
pub open spec fn scale() -> nat {
    pow10(SCALING_EXPONENT as nat)
}

pub open spec fn is_digit(c: char) -> bool {
    48 <= c as int && c as int <= 57
}

pub open spec fn digit_value(c: char) -> nat {
    (c as int - 48) as nat
}

/// The character of a decimal digit `d < 10`.
pub open spec fn digit_char(d: nat) -> char {
    if d == 0 { '0' }
    else if d == 1 { '1' }
    else if d == 2 { '2' }
    else if d == 3 { '3' }
    else if d == 4 { '4' }
    else if d == 5 { '5' }
    else if d == 6 { '6' }
    else if d == 7 { '7' }
    else if d == 8 { '8' }
    else { '9' }
}

/// The shortest decimal writing of `n` ("0" for zero).
pub open spec fn decimal_text(n: nat) -> Seq<char>
    decreases n,
{
    if n < 10 {
        seq![digit_char(n)]
    } else {
        decimal_text(n / 10).push(digit_char(n % 10))
    }
}

/// The `w` lowest decimal digits of `n`, zero-padded on the left.
pub open spec fn padded_text(n: nat, w: nat) -> Seq<char>
    decreases w,
{
    if w == 0 {
        Seq::empty()
    } else {
        padded_text(n / 10, (w - 1) as nat).push(digit_char(n % 10))
    }
}

/// Drops trailing zero digits from a fraction of `w` digits, keeping at least one digit:
/// the fraction digits left, and their number.
pub open spec fn strip_zeros(f: nat, w: nat) -> (nat, nat)
    decreases w,
{
    if w > 1 && f % 10 == 0 {
        strip_zeros(f / 10, (w - 1) as nat)
    } else {
        (f, w)
    }
}

/// The text of a quantity of `units`: its whole part, a point, and its fraction
/// without trailing zeros, but at least one digit.
pub open spec fn format_units(units: nat) -> Seq<char> {
    let (f, w) = strip_zeros(units % scale(), SCALING_EXPONENT as nat);
    decimal_text(units / scale()) + seq!['.'] + padded_text(f, w)
}

/// `s` without its trailing '0' characters.
pub open spec fn trim_zeros(s: Seq<char>) -> Seq<char>
    decreases s.len(),
{
    if s.len() > 0 && s.last() == '0' {
        trim_zeros(s.drop_last())
    } else {
        s
    }
}

/// Scans `t` from left to right. On success: the integer read from all its digits,
/// whether a point was seen, and the number of digits after the point. On failure:
/// the first character that is neither a digit nor the first point, and its index.
pub open spec fn scan(t: Seq<char>) -> Result<(nat, bool, nat), (char, nat)>
    decreases t.len(),
{
    if t.len() == 0 {
        Ok((0, false, 0))
    } else {
        match scan(t.drop_last()) {
            Err(e) => Err(e),
            Ok((v, dot, fr)) => {
                let c = t.last();
                if is_digit(c) {
                    Ok((v * 10 + digit_value(c), dot, if dot { fr + 1 } else { fr }))
                } else if c == '.' && !dot {
                    Ok((v, true, fr))
                } else {
                    Err((c, (t.len() - 1) as nat))
                }
            }
        }
    }
}

/// What parsing `s` gives: `Ok(units)`, `Err(Some((c, i)))` for a bad character `c`
/// at index `i`, or `Err(None)` for a value that does not fit in the unit range.
pub open spec fn parse_units(s: Seq<char>) -> Result<nat, Option<(char, nat)>> {
    match scan(trim_zeros(s)) {
        Err(e) => Err(Some(e)),
        Ok((v, _dot, fr)) => {
            if fr <= SCALING_EXPONENT && v * pow10((SCALING_EXPONENT - fr) as nat) <= u128::MAX {
                Ok(v * pow10((SCALING_EXPONENT - fr) as nat))
            } else {
                Err(None)
            }
        }
    }
}

/// A non-negative quantity held exactly as a count of 10^-18 units.
#[derive(Debug, PartialEq, Eq, Structural, PartialOrd, Ord, Clone, Copy)]
pub struct Decimal {
    units: u128,
}

/// Why a text is not a decimal.
#[derive(Debug, PartialEq, Eq, Structural, Clone, Copy)]
pub enum ParseDecimalError {
    /// A character other than a digit or a single point, and its index in the text.
    InvalidCharacter(char, usize),
    /// More than eighteen fractional digits, or a value beyond the unit range.
    OutOfRange,
}

impl View for Decimal {
    type V = u128;

    closed spec fn view(&self) -> u128 {
        self.units
    }
}

/// What `Decimal::parse` returns for `s`, in terms of `parse_units`.
pub open spec fn parse_result(s: Seq<char>, r: Result<Decimal, ParseDecimalError>) -> bool {
    match parse_units(s) {
        Ok(u) => r is Ok && r->Ok_0@ as nat == u,
        Err(Some((c, i))) => r == Err::<Decimal, ParseDecimalError>(
            ParseDecimalError::InvalidCharacter(c, i as usize),
        ),
        Err(None) => r == Err::<Decimal, ParseDecimalError>(ParseDecimalError::OutOfRange),
    }
}

proof fn lemma_pow10_positive(e: nat)
    ensures
        pow10(e) >= 1,
    decreases e,
{
    if e > 0 {
        lemma_pow10_positive((e - 1) as nat);
    }
}

proof fn lemma_pow10_monotonic(a: nat, b: nat)
    requires
        a <= b,
    ensures
        pow10(a) <= pow10(b),
    decreases b,
{
    if a < b {
        lemma_pow10_monotonic(a, (b - 1) as nat);
        lemma_pow10_positive((b - 1) as nat);
    }
}

proof fn lemma_scale_value()
    ensures
        scale() == SCALING_FACTOR,
        pow10(17) == 100_000_000_000_000_000,
{
    reveal_with_fuel(pow10, 19);
}


proof fn lemma_pow10_adds(a: nat, b: nat)
    ensures
        pow10(a + b) == pow10(a) * pow10(b),
    decreases a,
{
    if a > 0 {
        lemma_pow10_adds((a - 1) as nat, b);
        assert(pow10(a) == 10 * pow10((a - 1) as nat));
        assert(((a + b) - 1) as nat == ((a - 1) as nat + b) as nat);
        let q = pow10((a - 1) as nat);
        let pb = pow10(b);
        assert(pow10(a + b) == 10 * (q * pb));
        assert(10 * (q * pb) == (10 * q) * pb) by (nonlinear_arith);
    } else {
        assert(pow10(0) == 1);
        assert(a + b == b);
    }
}

proof fn lemma_digit_char(d: nat)
    requires
        d < 10,
    ensures
        is_digit(digit_char(d)),
        digit_value(digit_char(d)) == d,
        d > 0 ==> digit_char(d) != '0',
{
}

/// Scanning the writing of `n` reads `n`, with no point.
proof fn lemma_scan_decimal_text(n: nat)
    ensures
        scan(decimal_text(n)) == Ok::<(nat, bool, nat), (char, nat)>((n, false, 0)),
    decreases n,
{
    lemma_digit_char(n % 10);
    let t = decimal_text(n);
    if n < 10 {
        assert(t.drop_last() =~= Seq::<char>::empty());
        assert(t.last() == digit_char(n));
        assert(n % 10 == n);
        assert(scan(t.drop_last()) == Ok::<(nat, bool, nat), (char, nat)>((0, false, 0)));
        assert(is_digit(t.last()));
        assert(scan(t) == Ok::<(nat, bool, nat), (char, nat)>((0 * 10 + n, false, 0)));
    } else {
        lemma_scan_decimal_text(n / 10);
        assert(t.drop_last() =~= decimal_text(n / 10));
        assert(t.last() == digit_char(n % 10));
        assert(n == (n / 10) * 10 + n % 10);
        assert(scan(t.drop_last()) == Ok::<(nat, bool, nat), (char, nat)>((n / 10, false, 0)));
        assert(is_digit(t.last()));
        assert(scan(t) == Ok::<(nat, bool, nat), (char, nat)>(((n / 10) * 10 + n % 10, false, 0)));
    }
}

/// Scanning `x` then `k` padded digits of `f < 10^k`, after a point, appends them to
/// the value read.
proof fn lemma_scan_padded(x: Seq<char>, v: nat, fr: nat, f: nat, k: nat)
    requires
        scan(x) == Ok::<(nat, bool, nat), (char, nat)>((v, true, fr)),
        f < pow10(k),
    ensures
        scan(x + padded_text(f, k)) == Ok::<(nat, bool, nat), (char, nat)>(
            (v * pow10(k) + f, true, fr + k),
        ),
    decreases k,
{
    if k == 0 {
        assert(x + padded_text(f, k) =~= x);
        assert(pow10(0) == 1);
        assert(f == 0);
        let pk = pow10(k);
        assert(pk == 1);
        assert(v * pk + f == v) by (nonlinear_arith)
            requires
                pk == 1,
                f == 0,
        ;
    } else {
        let p = pow10((k - 1) as nat);
        assert(f / 10 < p) by (nonlinear_arith)
            requires
                f < 10 * p,
        ;
        lemma_scan_padded(x, v, fr, f / 10, (k - 1) as nat);
        lemma_digit_char(f % 10);
        let t = x + padded_text(f, k);
        assert(t.drop_last() =~= x + padded_text(f / 10, (k - 1) as nat));
        assert(t.last() == digit_char(f % 10));
        assert(pow10(k) == 10 * p);
        assert(scan(t.drop_last()) == Ok::<(nat, bool, nat), (char, nat)>(
            (v * p + f / 10, true, fr + (k - 1) as nat),
        ));
        assert(is_digit(t.last()));
        assert(scan(t) == Ok::<(nat, bool, nat), (char, nat)>(
            ((v * p + f / 10) * 10 + f % 10, true, fr + (k - 1) as nat + 1),
        ));
        assert((v * p + f / 10) * 10 + f % 10 == v * (10 * p) + f) by (nonlinear_arith);
        assert(v * (10 * p) == v * pow10(k));
        assert(fr + (k - 1) as nat + 1 == fr + k);
    }
}

/// What stripping trailing zeros leaves of a fraction `f` of `w` digits.
proof fn lemma_strip_zeros(f: nat, w: nat)
    requires
        w >= 1,
        f < pow10(w),
    ensures
        ({
            let (g, k) = strip_zeros(f, w);
            &&& 1 <= k <= w
            &&& g < pow10(k)
            &&& f == g * pow10((w - k) as nat)
            &&& (k == 1 || g % 10 != 0)
        }),
    decreases w,
{
    if w > 1 && f % 10 == 0 {
        let p = pow10((w - 1) as nat);
        assert(f / 10 < p) by (nonlinear_arith)
            requires
                f < 10 * p,
        ;
        lemma_strip_zeros(f / 10, (w - 1) as nat);
        let (g, k) = strip_zeros(f / 10, (w - 1) as nat);
        let q = pow10((w - 1 - k) as nat);
        assert(pow10((w - k) as nat) == 10 * q);
        assert(f == g * (10 * q)) by (nonlinear_arith)
            requires
                f / 10 == g * q,
                f % 10 == 0,
        ;
    } else {
        assert(pow10(0) == 1);
        assert(f == f * pow10((w - w) as nat));
    }
}

/// Reading the text of any quantity in the unit range gives the quantity back.
pub proof fn lemma_format_parse_round_trip(units: nat)
    requires
        units <= u128::MAX,
    ensures
        parse_units(format_units(units)) == Ok::<nat, Option<(char, nat)>>(units),
{
    lemma_scale_value();
    let sc = scale();
    let whole = units / sc;
    let frac = units % sc;
    assert(units == sc * whole + frac && frac < sc) by (nonlinear_arith)
        requires
            sc > 0,
            whole == units / sc,
            frac == units % sc,
    ;
    lemma_strip_zeros(frac, SCALING_EXPONENT as nat);
    let (g, k) = strip_zeros(frac, SCALING_EXPONENT as nat);
    let dtext = decimal_text(whole);
    let text = format_units(units);
    assert(text == dtext + seq!['.'] + padded_text(g, k));
    lemma_scan_decimal_text(whole);
    let dotted = dtext.push('.');
    assert(dotted.drop_last() =~= dtext);
    assert(scan(dotted) == Ok::<(nat, bool, nat), (char, nat)>((whole, true, 0)));
    assert(dtext + seq!['.'] =~= dotted);
    let e = (SCALING_EXPONENT - k) as nat;
    lemma_pow10_adds(k, e);
    if g % 10 != 0 {
        lemma_scan_padded(dotted, whole, 0, g, k);
        lemma_digit_char(g % 10);
        assert(text.last() == digit_char(g % 10));
        assert(trim_zeros(text) == text);
        let v = whole * pow10(k) + g;
        let pk = pow10(k);
        let pe = pow10(e);
        assert(v * pe == whole * (pk * pe) + g * pe) by (nonlinear_arith)
            requires
                v == whole * pk + g,
        ;
        assert(pk * pe == sc);
        assert(v * pow10(e) == units);
    } else {
        assert(k == 1);
        assert(pow10(0) == 1);
        assert(pow10(1) == 10);
        assert(g == 0);
        assert(padded_text(0, 0) =~= Seq::<char>::empty());
        assert(padded_text(g, k) =~= seq!['0']);
        assert(text.drop_last() =~= dotted);
        assert(trim_zeros(dotted) == dotted);
        assert(trim_zeros(text) == dotted);
        assert(frac == 0) by (nonlinear_arith)
            requires
                frac == g * pow10(e),
                g == 0,
        ;
        assert(pow10(k) == 10);
        assert(pow10(e) * 10 == sc);
        assert(whole * sc == units);
    }
}

/// Reading the text of a decimal gives that same decimal.
pub proof fn lemma_parse_of_format(d: Decimal, r: Result<Decimal, ParseDecimalError>)
    requires
        parse_result(format_units(d@ as nat), r),
    ensures
        r == Ok::<Decimal, ParseDecimalError>(d),
{
    lemma_format_parse_round_trip(d@ as nat);
}

/// Two decimals are equal exactly when they hold the same number of units.
pub proof fn lemma_eq_iff_units(a: Decimal, b: Decimal)
    ensures
        (a == b) <==> (a@ == b@),
{
}

/// Ten to the power `k`, for `k` up to eighteen.
fn pow10_u128(k: u32) -> (r: u128)
    requires
        k <= SCALING_EXPONENT,
    ensures
        r == pow10(k as nat),
{
    proof {
        lemma_scale_value();
    }
    let mut r: u128 = 1;
    let mut i: u32 = 0;
    while i < k
        invariant
            i <= k <= SCALING_EXPONENT,
            r == pow10(i as nat),
            pow10(17) == 100_000_000_000_000_000,
        decreases k - i,
    {
        proof {
            lemma_pow10_monotonic(i as nat, 17);
        }
        r = r * 10;
        i = i + 1;
    }
    r
}

proof fn lemma_scan_error_stays(t: Seq<char>, k: int)
    requires
        0 <= k <= t.len(),
        scan(t.subrange(0, k)) is Err,
    ensures
        scan(t) == scan(t.subrange(0, k)),
    decreases t.len() - k,
{
    if k < t.len() {
        assert(t.subrange(0, k + 1).drop_last() =~= t.subrange(0, k));
        lemma_scan_error_stays(t, k + 1);
    } else {
        assert(t.subrange(0, k) =~= t);
    }
}


/// The one-character text of the digit `d`.
fn digit_text(d: u128) -> (r: &'static str)
    requires
        d < 10,
    ensures
        r@ == seq![digit_char(d as nat)],
{
    if d == 0 {
        proof { reveal_strlit("0"); }
        "0"
    } else if d == 1 {
        proof { reveal_strlit("1"); }
        "1"
    } else if d == 2 {
        proof { reveal_strlit("2"); }
        "2"
    } else if d == 3 {
        proof { reveal_strlit("3"); }
        "3"
    } else if d == 4 {
        proof { reveal_strlit("4"); }
        "4"
    } else if d == 5 {
        proof { reveal_strlit("5"); }
        "5"
    } else if d == 6 {
        proof { reveal_strlit("6"); }
        "6"
    } else if d == 7 {
        proof { reveal_strlit("7"); }
        "7"
    } else if d == 8 {
        proof { reveal_strlit("8"); }
        "8"
    } else {
        proof { reveal_strlit("9"); }
        "9"
    }
}

/// Appends the shortest decimal writing of `n`.
fn push_decimal(out: &mut String, n: u128)
    ensures
        final(out)@ == old(out)@ + decimal_text(n as nat),
    decreases n,
{
    if n >= 10 {
        push_decimal(out, n / 10);
    }
    out.append(digit_text(n % 10));
    assert(out@ =~= old(out)@ + decimal_text(n as nat));
}

/// Appends the `w` lowest decimal digits of `n`, zero-padded.
fn push_padded(out: &mut String, n: u128, w: u32)
    ensures
        final(out)@ == old(out)@ + padded_text(n as nat, w as nat),
    decreases w,
{
    if w > 0 {
        push_padded(out, n / 10, w - 1);
        out.append(digit_text(n % 10));
        assert(out@ =~= old(out)@ + padded_text(n as nat, w as nat));
    } else {
        assert(out@ =~= old(out)@ + padded_text(n as nat, w as nat));
    }
}

impl Decimal {
    /// The quantity of `units` 10^-18 units.
    pub fn from_units(units: u128) -> (r: Decimal)
        ensures
            r@ == units,
    {
        Decimal { units }
    }

    /// The number of 10^-18 units held.
    pub fn units(&self) -> (r: u128)
        ensures
            r == self@,
    {
        self.units
    }


    /// The text of the quantity: whole part, a point, then the fraction with trailing
    /// zeros dropped but at least one digit kept ("0.0", "1.5", "0.05").
    pub fn to_string(&self) -> (r: String)
        ensures
            r@ == format_units(self@ as nat),
    {
        proof {
            lemma_scale_value();
        }
        let whole = self.units / SCALING_FACTOR;
        let mut fractional = self.units % SCALING_FACTOR;
        let mut width: u32 = SCALING_EXPONENT;
        while width > 1 && fractional % 10 == 0
            invariant
                1 <= width <= SCALING_EXPONENT,
                strip_zeros(self@ as nat % scale(), SCALING_EXPONENT as nat) == strip_zeros(
                    fractional as nat,
                    width as nat,
                ),
            decreases width,
        {
            fractional = fractional / 10;
            width = width - 1;
        }
        let mut out = String::new();
        push_decimal(&mut out, whole);
        proof { reveal_strlit("."); }
        out.append(".");
        push_padded(&mut out, fractional, width);
        assert(out@ =~= format_units(self@ as nat));
        out
    }

    /// Reads a decimal such as "1234.5678". Trailing zeros are dropped first; then each
    /// character must be a digit or the first point. Text without digits reads as zero.
    pub fn parse(s: &str) -> (r: Result<Decimal, ParseDecimalError>)
        ensures
            parse_result(s@, r),
    {
        let len = s.unicode_len();
        let mut end: usize = len;
        assert(s@.subrange(0, len as int) =~= s@);
        while end > 0 && s.get_char(end - 1) == '0'
            invariant
                end <= len,
                len == s@.len(),
                trim_zeros(s@) == trim_zeros(s@.subrange(0, end as int)),
            decreases end,
        {
            assert(s@.subrange(0, end as int).drop_last() =~= s@.subrange(0, end - 1));
            end = end - 1;
        }
        let ghost t = s@.subrange(0, end as int);
        assert(trim_zeros(s@) == t);
        let mut i: usize = 0;
        let mut n: u128 = 0;
        let mut overflow = false;
        let mut dot = false;
        let mut frac: usize = 0;
        let ghost mut val: nat = 0;
        assert(t.subrange(0, 0) =~= Seq::<char>::empty());
        while i < end
            invariant
                i <= end <= len,
                len == s@.len(),
                t == s@.subrange(0, end as int),
                trim_zeros(s@) == t,
                frac <= i,
                scan(t.subrange(0, i as int)) == Ok::<(nat, bool, nat), (char, nat)>(
                    (val, dot, frac as nat),
                ),
                overflow ==> val > u128::MAX,
                !overflow ==> val == n,
            decreases end - i,
        {
            let c = s.get_char(i);
            assert(t.subrange(0, i + 1).drop_last() =~= t.subrange(0, i as int));
            assert(t.subrange(0, i + 1).last() == c);
            if c >= '0' && c <= '9' {
                let d = ((c as u32) - 48) as u128;
                assert(d == digit_value(c));
                if !overflow {
                    if n > (u128::MAX - d) / 10 {
                        assert(n * 10 + d > u128::MAX) by (nonlinear_arith)
                            requires
                                n > (u128::MAX - d) / 10,
                                d <= 9,
                        ;
                        overflow = true;
                    } else {
                        assert(n * 10 + d <= u128::MAX) by (nonlinear_arith)
                            requires
                                n <= (u128::MAX - d) / 10,
                                d <= 9,
                        ;
                        n = n * 10 + d;
                    }
                }
                proof {
                    val = val * 10 + d as nat;
                }
                if dot {
                    frac = frac + 1;
                }
            } else if c == '.' && !dot {
                dot = true;
            } else {
                assert(!is_digit(c));
                assert(scan(t.subrange(0, i + 1)) == Err::<(nat, bool, nat), (char, nat)>(
                    (c, i as nat),
                ));
                proof {
                    lemma_scan_error_stays(t, i + 1);
                }
                assert(parse_units(s@) == Err::<nat, Option<(char, nat)>>(Some((c, i as nat))));
                return Err(ParseDecimalError::InvalidCharacter(c, i));
            }
            i = i + 1;
        }
        assert(t.subrange(0, end as int) =~= t);
        if overflow || frac > 18 {
            proof {
                if frac <= 18 {
                    lemma_pow10_positive((SCALING_EXPONENT - frac) as nat);
                    let p = pow10((SCALING_EXPONENT - frac) as nat);
                    assert(val * p >= val) by (nonlinear_arith)
                        requires
                            p >= 1,
                    ;
                }
            }
            return Err(ParseDecimalError::OutOfRange);
        }
        let p = pow10_u128(SCALING_EXPONENT - frac as u32);
        proof {
            lemma_pow10_positive((SCALING_EXPONENT - frac) as nat);
        }
        if n > u128::MAX / p {
            assert(n * p > u128::MAX) by (nonlinear_arith)
                requires
                    n > u128::MAX / p,
                    p >= 1,
            ;
            Err(ParseDecimalError::OutOfRange)
        } else {
            assert(n * p <= u128::MAX) by (nonlinear_arith)
                requires
                    n <= u128::MAX / p,
                    p >= 1,
            ;
            Ok(Decimal { units: n * p })
        }
    }
}

impl std::str::FromStr for Decimal {
    type Err = ParseDecimalError;

    fn from_str(s: &str) -> Result<Decimal, ParseDecimalError> {
        Decimal::parse(s)
    }
}

} // verus!
