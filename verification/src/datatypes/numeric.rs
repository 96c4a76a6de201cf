//! The PostgreSQL `numeric` type: a sign, a base-10000 digit string, a
//! weight and a display scale.  The crate renders numerics as exact
//! decimal text, and scales them into integers with half-even rounding
//! for the Parquet DECIMAL forms.

use vstd::prelude::*;

use crate::appenders::generic::err_string;
use crate::datatypes::utils::{read_i16_at, read_u16_at};

verus! {

/// A numeric exactly as the wire carries it: not-a-number, or a sign, a
/// weight (the base-10000 exponent of the first digit), a display scale
/// and the base-10000 digits.
#[derive(Debug)]
pub struct PgNumericValue {
    pub nan: bool,
    pub neg: bool,
    pub weight: i16,
    pub dscale: u16,
    pub digits: Vec<u16>,
}

/// Ghost mirror of a numeric value.
pub ghost struct NumericV {
    pub nan: bool,
    pub neg: bool,
    pub weight: int,
    pub dscale: int,
    pub digits: Seq<u16>,
}

impl PgNumericValue {
    pub open spec fn view(&self) -> NumericV {
        NumericV {
            nan: self.nan,
            neg: self.neg,
            weight: self.weight as int,
            dscale: self.dscale as int,
            digits: self.digits@,
        }
    }

    pub open spec fn wf(&self) -> bool {
        &&& self.digits@.len() <= 0x8000
        &&& forall|i: int| 0 <= i < self.digits@.len() ==> self.digits@[i] < 10000
        &&& self.dscale <= 0x4000
        &&& -0x4000 <= self.weight <= 0x4000
    }
}

/// Parse the wire form of a numeric.
#[verifier::loop_isolation(false)]
pub fn parse_numeric(b: &[u8]) -> (r: Result<PgNumericValue, String>)
    ensures
        match r {
            Result::Ok(v) => spec_parse_numeric(b@) == Option::Some(v@) && v.wf(),
            Result::Err(_) => spec_parse_numeric(b@) is None,
        },
{
    proof {
        assert(b@.skip(0) =~= b@);
    }
    if b.len() < 8 {
        return Result::Err(err_string("malformed numeric value"));
    }
    let ndigits = read_u16_at(b, 0);
    let weight = read_i16_at(b, 2);
    let sign = read_u16_at(b, 4);
    let dscale = read_u16_at(b, 6);
    if ndigits > 0x7fff || dscale > 0x4000 || weight > 0x4000 || weight < -0x4000 {
        return Result::Err(err_string("malformed numeric value"));
    }
    if sign == 0xc000 {
        return Result::Ok(
            PgNumericValue { nan: true, neg: false, weight: 0, dscale: 0, digits: Vec::new() },
        );
    }
    if sign != 0 && sign != 0x4000 {
        return Result::Err(err_string("unsupported numeric value"));
    }
    let n = ndigits as usize;
    if (b.len() - 8) / 2 < n {
        return Result::Err(err_string("malformed numeric value"));
    }
    let mut digits: Vec<u16> = Vec::new();
    let mut i: usize = 0;
    while i < n
        invariant
            i <= n,
            digits@.len() == i,
            forall|j: int| 0 <= j < i ==> digits@[j] < 10000,
            forall|j: int|
                0 <= j < i ==> #[trigger] digits@[j] as int == crate::datatypes::utils::be_u16(
                    b@.skip(8 + 2 * j),
                ),
        decreases n - i,
    {
        let d = read_u16_at(b, 8 + 2 * i);
        if d >= 10000 {
            proof {
                assert(crate::datatypes::utils::be_u16(b@.skip(8 + 2 * (i as int))) >= 10000);
            }
            return Result::Err(err_string("malformed numeric value"));
        }
        digits.push(d);
        i = i + 1;
    }
    let r = PgNumericValue { nan: false, neg: sign == 0x4000, weight, dscale, digits };
    proof {
        let sp = spec_parse_numeric(b@);
        assert forall|k: int| 0 <= k < n implies #[trigger] crate::datatypes::utils::be_u16(
            b@.skip(8 + 2 * k),
        ) < 10000 by {
            assert(digits@[k] as int == crate::datatypes::utils::be_u16(b@.skip(8 + 2 * k)));
            assert(digits@[k] < 10000);
        }
        match sp {
            Option::Some(nv) => {
                assert(r.digits@ =~= nv.digits);
                assert(r@ == nv);
            },
            Option::None => {
                assert(false);
            },
        }
    }
    Result::Ok(r)
}

/// The four decimal digits of one base-10000 digit, most significant
/// first, as ASCII.
pub open spec fn four_digits(d: int) -> Seq<u8> {
    seq![
        (0x30 + d / 1000) as u8,
        (0x30 + (d / 100) % 10) as u8,
        (0x30 + (d / 10) % 10) as u8,
        (0x30 + d % 10) as u8,
    ]
}

/// The base-10000 digits flattened to ASCII decimal digits.
pub open spec fn flat_digits(ds: Seq<u16>) -> Seq<u8>
    decreases ds.len(),
{
    if ds.len() == 0 {
        Seq::empty()
    } else {
        flat_digits(ds.drop_last()) + four_digits(ds.last() as int)
    }
}

/// ASCII zeros.
pub open spec fn zeros(n: int) -> Seq<u8> {
    Seq::new(
        if n >= 0 {
            n as nat
        } else {
            0
        },
        |i: int| 0x30u8,
    )
}

/// Leading zeros of a digit string.
pub open spec fn lead_zeros(s: Seq<u8>) -> int
    decreases s.len(),
{
    if s.len() == 0 {
        0
    } else if s[0] != 0x30 {
        0
    } else {
        1 + lead_zeros(s.skip(1))
    }
}

/// The digits before the decimal point, leading zeros kept.
pub open spec fn ipart_raw(v: NumericV) -> Seq<u8> {
    let flat = flat_digits(v.digits);
    let point = 4 * (v.weight + 1);
    if point <= 0 {
        zeros(1)
    } else if point >= flat.len() {
        flat + zeros(point - flat.len())
    } else {
        flat.subrange(0, point)
    }
}

/// The digits after the decimal point, before scale padding.
pub open spec fn fpart_raw(v: NumericV) -> Seq<u8> {
    let flat = flat_digits(v.digits);
    let point = 4 * (v.weight + 1);
    if point <= 0 {
        zeros(-point) + flat
    } else if point >= flat.len() {
        Seq::empty()
    } else {
        flat.skip(point)
    }
}

/// How many leading zeros the text drops: all of them, but never the
/// last remaining digit.
pub open spec fn strip_of(s: Seq<u8>) -> int {
    if lead_zeros(s) >= s.len() {
        s.len() - 1
    } else {
        lead_zeros(s)
    }
}

/// The exact decimal text of a numeric: an optional minus sign, the
/// integer digits without leading zeros, and exactly `dscale` fraction
/// digits after a point when the scale is positive.  Not-a-number prints
/// as `NaN`.
pub open spec fn numeric_text(v: NumericV) -> Seq<u8> {
    if v.nan {
        seq![0x4eu8, 0x61u8, 0x4eu8]
    } else {
        let ipart = ipart_raw(v).skip(strip_of(ipart_raw(v)));
        let fpart = if v.dscale == 0 {
            Seq::empty()
        } else if v.dscale <= fpart_raw(v).len() {
            fpart_raw(v).subrange(0, v.dscale as int)
        } else {
            fpart_raw(v) + zeros(v.dscale - fpart_raw(v).len())
        };
        let unsigned_text = if fpart.len() == 0 {
            ipart
        } else {
            ipart + seq![0x2eu8] + fpart
        };
        if v.neg {
            seq![0x2du8] + unsigned_text
        } else {
            unsigned_text
        }
    }
}

/// Append the four decimal digits of one base-10000 digit.
fn push_four(out: &mut Vec<u8>, d: u16)
    requires
        d < 10000,
    ensures
        final(out)@ =~= old(out)@ + four_digits(d as int),
{
    out.push(0x30 + (d / 1000) as u8);
    out.push(0x30 + ((d / 100) % 10) as u8);
    out.push(0x30 + ((d / 10) % 10) as u8);
    out.push(0x30 + (d % 10) as u8);
}

/// Flatten all base-10000 digits to ASCII.
#[verifier::loop_isolation(false)]
fn flat_exec(ds: &Vec<u16>) -> (r: Vec<u8>)
    requires
        forall|i: int| 0 <= i < ds@.len() ==> ds@[i] < 10000,
        ds@.len() <= 0x8000,
    ensures
        r@ =~= flat_digits(ds@),
        r@.len() == 4 * ds@.len(),
{
    let mut out: Vec<u8> = Vec::new();
    let n = ds.len();
    let mut i: usize = 0;
    while i < n
        invariant
            i <= n,
            n == ds@.len(),
            out@ =~= flat_digits(ds@.subrange(0, i as int)),
            out@.len() == 4 * i,
        decreases n - i,
    {
        push_four(&mut out, ds[i]);
        proof {
            assert(ds@.subrange(0, i + 1).drop_last() =~= ds@.subrange(0, i as int));
            assert(ds@.subrange(0, i + 1).last() == ds@[i as int]);
        }
        i = i + 1;
    }
    proof {
        assert(ds@.subrange(0, n as int) =~= ds@);
    }
    out
}

/// Length of the flattened digits, proved as a lemma.
pub proof fn lemma_flat_len(ds: Seq<u16>)
    ensures
        flat_digits(ds).len() == 4 * ds.len(),
    decreases ds.len(),
{
    if ds.len() > 0 {
        lemma_flat_len(ds.drop_last());
    }
}

/// Build the raw integer and fraction digit strings of a numeric.
#[verifier::loop_isolation(false)]
#[verifier::rlimit(60)]
fn numeric_parts(v: &PgNumericValue) -> (r: (Vec<u8>, Vec<u8>))
    requires
        v.wf(),
        !v.nan,
    ensures
        r.0@ =~= ipart_raw(v@),
        r.1@ =~= fpart_raw(v@),
{
    proof {
        lemma_flat_len(v.digits@);
    }
    let flat = flat_exec(&v.digits);
    let flat_len = flat.len();
    let point: i32 = 4 * ((v.weight as i32) + 1);
    let mut ipart: Vec<u8> = Vec::new();
    let mut fpart: Vec<u8> = Vec::new();
    if point <= 0 {
        ipart.push(0x30);
        proof {
            assert(ipart@ =~= zeros(1));
        }
        let fzeros: usize = (-point) as usize;
        let mut k: usize = 0;
        while k < fzeros
            invariant
                k <= fzeros,
                fpart@ =~= zeros(k as int),
            decreases fzeros - k,
        {
            fpart.push(0x30);
            proof {
                assert(fpart@ =~= zeros(k + 1));
            }
            k = k + 1;
        }
        let mut k2: usize = 0;
        while k2 < flat_len
            invariant
                k2 <= flat_len,
                flat_len == flat@.len(),
                fpart@ =~= zeros(fzeros as int) + flat@.subrange(0, k2 as int),
            decreases flat_len - k2,
        {
            fpart.push(flat[k2]);
            proof {
                assert(fpart@ =~= zeros(fzeros as int) + flat@.subrange(0, k2 + 1));
            }
            k2 = k2 + 1;
        }
        proof {
            assert(flat@.subrange(0, flat_len as int) =~= flat@);
        }
    } else if point as usize >= flat_len {
        let mut k: usize = 0;
        while k < flat_len
            invariant
                k <= flat_len,
                flat_len == flat@.len(),
                ipart@ =~= flat@.subrange(0, k as int),
            decreases flat_len - k,
        {
            ipart.push(flat[k]);
            k = k + 1;
        }
        proof {
            assert(ipart@ =~= flat@);
        }
        let izeros: usize = (point as usize) - flat_len;
        let mut k3: usize = 0;
        while k3 < izeros
            invariant
                k3 <= izeros,
                ipart@ =~= flat@ + zeros(k3 as int),
            decreases izeros - k3,
        {
            ipart.push(0x30);
            proof {
                assert(ipart@ =~= flat@ + zeros(k3 + 1));
            }
            k3 = k3 + 1;
        }
    } else {
        let p = point as usize;
        let mut k: usize = 0;
        while k < p
            invariant
                k <= p,
                p < flat@.len(),
                flat_len == flat@.len(),
                ipart@ =~= flat@.subrange(0, k as int),
            decreases p - k,
        {
            ipart.push(flat[k]);
            k = k + 1;
        }
        let mut k4: usize = p;
        while k4 < flat_len
            invariant
                p <= k4 <= flat_len,
                flat_len == flat@.len(),
                fpart@ =~= flat@.subrange(p as int, k4 as int),
            decreases flat_len - k4,
        {
            fpart.push(flat[k4]);
            proof {
                assert(fpart@.drop_last() =~= flat@.subrange(p as int, k4 as int));
                assert(fpart@ =~= flat@.subrange(p as int, k4 + 1));
            }
            k4 = k4 + 1;
        }
        proof {
            assert(flat@.subrange(p as int, flat_len as int) =~= flat@.skip(p as int));
        }
    }
    (ipart, fpart)
}

/// Append the decimal point and exactly `dscale` fraction digits,
/// padding with zeros.
#[verifier::loop_isolation(false)]
#[verifier::rlimit(60)]
fn render_fraction(out: &mut Vec<u8>, fpart: &Vec<u8>, dscale: u16)
    requires
        dscale > 0,
    ensures
        final(out)@ =~= old(out)@ + seq![0x2eu8] + (if dscale <= fpart@.len() {
            fpart@.subrange(0, dscale as int)
        } else {
            fpart@ + zeros(dscale - fpart@.len())
        }),
{
    out.push(0x2e);
    let want = dscale as usize;
    let have = fpart.len();
    let take = if want < have {
        want
    } else {
        have
    };
    let mut k6: usize = 0;
    let ghost mid = out@;
    while k6 < take
        invariant
            k6 <= take,
            take <= fpart@.len(),
            out@ =~= mid + fpart@.subrange(0, k6 as int),
        decreases take - k6,
    {
        out.push(fpart[k6]);
        proof {
            assert(fpart@.subrange(0, k6 + 1).drop_last() =~= fpart@.subrange(0, k6 as int));
        }
        k6 = k6 + 1;
    }
    let mut k7: usize = take;
    while k7 < want
        invariant
            take <= k7 <= want,
            out@ =~= mid + fpart@.subrange(0, take as int) + zeros(k7 - take),
        decreases want - k7,
    {
        out.push(0x30);
        proof {
            assert(out@ =~= mid + fpart@.subrange(0, take as int) + zeros(k7 - take + 1));
        }
        k7 = k7 + 1;
    }
    proof {
        let fpr = fpart@;
        let ds = dscale as int;
        if ds <= fpr.len() {
            assert(fpr.subrange(0, take as int) =~= fpr.subrange(0, ds));
            assert(zeros(0) =~= Seq::<u8>::empty());
            assert(out@ =~= mid + fpr.subrange(0, ds));
        } else {
            assert(fpr.subrange(0, take as int) =~= fpr);
            assert(out@ =~= mid + (fpr + zeros(ds - fpr.len())));
        }
    }
}

/// Render a numeric as its exact decimal text.
#[verifier::loop_isolation(false)]
#[verifier::rlimit(100)]
pub fn numeric_to_text(v: &PgNumericValue) -> (r: Vec<u8>)
    requires
        v.wf(),
    ensures
        r@ =~= numeric_text(v@),
{
    if v.nan {
        let mut out: Vec<u8> = Vec::new();
        out.push(0x4e);
        out.push(0x61);
        out.push(0x4e);
        return out;
    }
    let (ipart, fpart) = numeric_parts(v);
    // Strip leading zeros of the integer part, keeping at least one digit.
    let mut strip: usize = 0;
    let ilen = ipart.len();
    proof {
        lemma_lead_zeros(ipart@);
        lemma_flat_len(v.digits@);
        assert(ilen >= 1);
    }
    while strip < ilen && ipart[strip] == 0x30 && strip + 1 < ilen
        invariant
            strip < ilen,
            ilen == ipart@.len(),
            forall|j: int| 0 <= j < strip ==> ipart@[j] == 0x30,
            strip <= lead_zeros(ipart@),
        decreases ilen - strip,
    {
        proof {
            lemma_lead_zeros_step(ipart@, strip as int);
        }
        strip = strip + 1;
    }
    proof {
        lemma_lead_zeros(ipart@);
        if strip < ilen && ipart@[strip as int] != 0x30 {
            lemma_lead_zeros_stop(ipart@, strip as int);
        } else {
            assert(strip + 1 >= ilen);
            assert(ipart@[strip as int] == 0x30);
            lemma_lead_zeros_step(ipart@, strip as int);
        }
        assert(strip as int == strip_of(ipart@));
    }
    let mut out: Vec<u8> = Vec::new();
    if v.neg {
        out.push(0x2d);
    }
    let mut k5: usize = strip;
    while k5 < ilen
        invariant
            strip <= k5 <= ilen,
            ilen == ipart@.len(),
            out@ =~= (if v.neg {
                seq![0x2du8]
            } else {
                Seq::<u8>::empty()
            }) + ipart@.subrange(strip as int, k5 as int),
        decreases ilen - k5,
    {
        out.push(ipart[k5]);
        proof {
            assert(ipart@.subrange(strip as int, k5 + 1).drop_last() =~= ipart@.subrange(
                strip as int,
                k5 as int,
            ));
        }
        k5 = k5 + 1;
    }
    proof {
        assert(ipart@.subrange(strip as int, ilen as int) =~= ipart@.skip(strip as int));
    }
    if v.dscale > 0 {
        render_fraction(&mut out, &fpart, v.dscale);
    }
    out
}

/// The numeric a well-formed wire value denotes, read off the bytes.
pub open spec fn spec_parse_numeric(b: Seq<u8>) -> Option<NumericV> {
    if b.len() < 8 {
        Option::None
    } else {
        let ndigits = crate::datatypes::utils::be_u16(b);
        let weight = crate::datatypes::utils::be_i16(b.skip(2));
        let sign = crate::datatypes::utils::be_u16(b.skip(4));
        let dscale = crate::datatypes::utils::be_u16(b.skip(6));
        if ndigits > 0x7fff || dscale > 0x4000 || weight > 0x4000 || weight < -0x4000 {
            Option::None
        } else if sign == 0xc000 {
            Option::Some(
                NumericV { nan: true, neg: false, weight: 0, dscale: 0, digits: Seq::empty() },
            )
        } else if sign != 0 && sign != 0x4000 {
            Option::None
        } else if b.len() - 8 < 2 * ndigits {
            Option::None
        } else if exists|k: int|
            0 <= k < ndigits && #[trigger] crate::datatypes::utils::be_u16(b.skip(8 + 2 * k))
                >= 10000 {
            Option::None
        } else {
            Option::Some(
                NumericV {
                    nan: false,
                    neg: sign == 0x4000,
                    weight,
                    dscale,
                    digits: Seq::new(
                        ndigits as nat,
                        |k: int| (crate::datatypes::utils::be_u16(b.skip(8 + 2 * k))) as u16,
                    ),
                },
            )
        }
    }
}

/// Powers of ten.
pub open spec fn pow10(k: int) -> int
    decreases k,
{
    if k <= 0 {
        1
    } else {
        10 * pow10(k - 1)
    }
}

/// Whether any digit at or after position `k` is not zero.
pub open spec fn rest_nonzero(ds: Seq<u16>, k: int) -> bool
    decreases ds.len() - k,
{
    if k < 0 || k >= ds.len() {
        false
    } else {
        ds[k] != 0 || rest_nonzero(ds, k + 1)
    }
}

/// Round the accumulated integer part by the first fraction digit, half
/// to even.
pub open spec fn round_half_even(acc: int, f1: int, rest: bool) -> int {
    if f1 > 5 {
        acc + 1
    } else if f1 < 5 {
        acc
    } else if rest {
        acc + 1
    } else if acc % 2 == 0 {
        acc
    } else {
        acc + 1
    }
}

/// Largest accumulator that can still take one more base-10000 digit.
pub open spec fn acc_cap() -> int {
    (0xffffffffffffffffffffffffffffffff - 9999) / 10000
}

/// Scale the magnitude of a numeric by `10^scale` and round half to
/// even, digit by digit: `k` is the next base-10000 digit, `e` its unit
/// exponent after scaling, `acc` the integer digits accumulated so far.
/// `None` when the magnitude overflows the accumulator; such a value
/// never fits any supported precision.
pub open spec fn scaled_mag_from(ds: Seq<u16>, k: int, e: int, acc: int) -> Option<int>
    decreases ds.len() - k, e + 5,
{
    if acc > acc_cap() {
        Option::None
    } else if k >= ds.len() {
        if e + 4 > 0 {
            scaled_mag_from(ds, k, e - 1, acc * 10)
        } else {
            Option::Some(acc)
        }
    } else if e >= 0 {
        scaled_mag_from(ds, k + 1, e - 4, acc * 10000 + ds[k])
    } else if e <= -5 {
        Option::Some(acc)
    } else {
        let t = e + 4;
        let hi = ds[k] as int / pow10(4 - t);
        let lo = ds[k] as int % pow10(4 - t);
        let acc2 = acc * pow10(t) + hi;
        let f1 = lo / pow10(4 - t - 1);
        let rest = lo % pow10(4 - t - 1) != 0 || rest_nonzero(ds, k + 1);
        if acc2 > acc_cap() {
            Option::None
        } else {
            Option::Some(round_half_even(acc2, f1, rest))
        }
    }
}

/// The scaled magnitude of a numeric.
pub open spec fn scaled_mag(v: NumericV, scale: int) -> Option<int> {
    if v.digits.len() == 0 {
        Option::Some(0)
    } else {
        scaled_mag_from(v.digits, 0, 4 * v.weight + scale, 0)
    }
}

/// The signed scaled integer of a numeric under a DECIMAL(precision,
/// scale) column: `None` when it cannot be represented and the record
/// softly becomes NULL.
pub open spec fn numeric_scaled(v: NumericV, precision: int, scale: int) -> Option<int> {
    match scaled_mag(v, scale) {
        Option::None => Option::None,
        Option::Some(m) => if m >= pow10(precision) {
            Option::None
        } else if v.neg {
            Option::Some(-m)
        } else {
            Option::Some(m)
        },
    }
}

/// Ten to the `k`, executable.
#[verifier::loop_isolation(false)]
pub fn pow10_exec(k: u32) -> (r: u128)
    requires
        k <= 38,
    ensures
        r as int == pow10(k as int),
        r >= 1,
{
    proof {
        lemma_pow10_pos(0);
    }
    let mut r: u128 = 1;
    let mut i: u32 = 0;
    while i < k
        invariant
            i <= k,
            r as int == pow10(i as int),
            r >= 1,
        decreases k - i,
    {
        proof {
            lemma_pow10_bound(i as int + 1);
            assert(pow10(i as int + 1) == 10 * pow10(i as int));
        }
        r = r * 10;
        i = i + 1;
    }
    r
}

pub proof fn lemma_pow10_bound(k: int)
    requires
        0 <= k <= 38,
    ensures
        pow10(k) <= pow10(38),
        pow10(38) == 0x4b3b4ca85a86c47a098a224000000000,
    decreases 38 - k,
{
    if k < 38 {
        lemma_pow10_bound(k + 1);
        lemma_pow10_pos(k);
    }
    assert(pow10(38) == 0x4b3b4ca85a86c47a098a224000000000) by {
        reveal_with_fuel(pow10, 40);
    }
}

pub proof fn lemma_pow10_pos(k: int)
    ensures
        pow10(k) >= 1,
    decreases k,
{
    if k > 0 {
        lemma_pow10_pos(k - 1);
    }
}

pub proof fn lemma_pow10_mono(a: int, b: int)
    requires
        a <= b,
    ensures
        pow10(a) <= pow10(b),
    decreases b - a,
{
    if a < b {
        lemma_pow10_mono(a, b - 1);
        lemma_pow10_pos(b - 1);
    }
}

/// Decimal bounds used to fit scaled values in machine integers.
pub proof fn lemma_pow10_small(p: int)
    requires
        0 <= p <= 38,
    ensures
        p <= 9 ==> pow10(p) <= 1000000000,
        p <= 18 ==> pow10(p) <= 1000000000000000000,
{
    if p <= 9 {
        lemma_pow10_mono(p, 9);
        assert(pow10(9) == 1000000000) by {
            reveal_with_fuel(pow10, 11);
        }
    }
    if p <= 18 {
        lemma_pow10_mono(p, 18);
        assert(pow10(18) == 1000000000000000000) by {
            reveal_with_fuel(pow10, 20);
        }
    }
}

/// Whether any digit at or after position `k` is not zero, executable.
fn rest_nonzero_exec(ds: &Vec<u16>, k: usize) -> (r: bool)
    ensures
        r == rest_nonzero(ds@, k as int),
    decreases ds@.len() - k,
{
    if k >= ds.len() {
        false
    } else if ds[k] != 0 {
        true
    } else {
        rest_nonzero_exec(ds, k + 1)
    }
}

/// The scaling recursion, executable.
#[verifier::rlimit(100)]
fn scaled_mag_from_exec(ds: &Vec<u16>, k: usize, e: i64, acc: u128) -> (r: Option<u128>)
    requires
        forall|i: int| 0 <= i < ds@.len() ==> ds@[i] < 10000,
        ds@.len() <= 0x8000,
        k <= ds@.len(),
        -0x80000 <= e <= 0x80000,
    ensures
        match r {
            Option::Some(m) => scaled_mag_from(ds@, k as int, e as int, acc as int)
                == Option::Some(m as int),
            Option::None => scaled_mag_from(ds@, k as int, e as int, acc as int) is None,
        },
    decreases ds@.len() - k, e + 5,
{
    let cap: u128 = (0xffffffffffffffffffffffffffffffff - 9999) / 10000;
    if acc > cap {
        Option::None
    } else if k >= ds.len() {
        if e + 4 > 0 {
            scaled_mag_from_exec(ds, k, e - 1, acc * 10)
        } else {
            Option::Some(acc)
        }
    } else if e >= 0 {
        scaled_mag_from_exec(ds, k + 1, e - 4, acc * 10000 + (ds[k] as u128))
    } else if e <= -5 {
        Option::Some(acc)
    } else {
        let t = (e + 4) as u32;
        let p = pow10_exec(4 - t);
        proof {
            lemma_pow10_bound(4 - t as int);
            lemma_pow10_bound(t as int);
            lemma_pow10_bound(4 - t as int - 1);
            assert(pow10(t as int) <= pow10(4)) by {
                reveal_with_fuel(pow10, 6);
            }
            assert(pow10(4) == 10000) by {
                reveal_with_fuel(pow10, 6);
            }
        }
        let hi = (ds[k] as u128) / p;
        let lo = (ds[k] as u128) % p;
        let pt = pow10_exec(t);
        proof {
            assert(acc * pt <= acc_cap() * 10000) by (nonlinear_arith)
                requires
                    0 <= acc <= acc_cap(),
                    1 <= pt <= 10000,
            ;
        }
        let acc2_hi = acc * pt;
        let acc2 = acc2_hi + hi;
        let p1 = pow10_exec(4 - t - 1);
        let f1 = lo / p1;
        let rest = lo % p1 != 0 || rest_nonzero_exec(ds, k + 1);
        if acc2 > cap {
            Option::None
        } else {
            let rounded: u128 = if f1 > 5 {
                acc2 + 1
            } else if f1 < 5 {
                acc2
            } else if rest {
                acc2 + 1
            } else if acc2 % 2 == 0 {
                acc2
            } else {
                acc2 + 1
            };
            proof {
                assert(rounded as int == round_half_even(acc2 as int, f1 as int, rest));
            }
            Option::Some(rounded)
        }
    }
}

/// The signed scaled integer of a numeric, or `None` when the value does
/// not fit DECIMAL(precision, scale).
pub fn numeric_scaled_exec(v: &PgNumericValue, precision: u32, scale: i32) -> (r: Option<i128>)
    requires
        v.wf(),
        !v.nan,
        1 <= precision <= 38,
        -0x4000 <= scale <= 0x4000,
    ensures
        match r {
            Option::Some(x) => numeric_scaled(v@, precision as int, scale as int) == Option::Some(
                x as int,
            ),
            Option::None => numeric_scaled(v@, precision as int, scale as int) is None,
        },
{
    if v.digits.len() == 0 {
        proof {
            lemma_pow10_pos(precision as int);
        }
        return Option::Some(0);
    }
    let e0: i64 = 4 * (v.weight as i64) + (scale as i64);
    let m = scaled_mag_from_exec(&v.digits, 0, e0, 0);
    match m {
        Option::None => Option::None,
        Option::Some(mag) => {
            let bound = pow10_exec(precision);
            if mag >= bound {
                Option::None
            } else {
                proof {
                    lemma_pow10_bound(precision as int);
                }
                if v.neg {
                    Option::Some(-(mag as i128))
                } else {
                    Option::Some(mag as i128)
                }
            }
        },
    }
}

/// The minimal big-endian two's-complement bytes of an integer, as the
/// Parquet DECIMAL byte-array form stores it.
pub open spec fn tc_bytes(x: int) -> Seq<u8> {
    tc_trim(tc_sixteen(x))
}

/// Sixteen big-endian two's-complement bytes.
pub open spec fn tc_sixteen(x: int) -> Seq<u8> {
    let u = if x >= 0 {
        x
    } else {
        x + 0x100000000000000000000000000000000
    };
    Seq::new(16, |i: int| ((u / pow256(15 - i)) % 256) as u8)
}

/// Powers of 256.
pub open spec fn pow256(k: int) -> int
    decreases k,
{
    if k <= 0 {
        1
    } else {
        256 * pow256(k - 1)
    }
}

/// Drop redundant sign-extension bytes, keeping at least one.
pub open spec fn tc_trim(s: Seq<u8>) -> Seq<u8>
    decreases s.len(),
{
    if s.len() <= 1 {
        s
    } else if s[0] == 0 && s[1] < 0x80 {
        tc_trim(s.skip(1))
    } else if s[0] == 0xff && s[1] >= 0x80 {
        tc_trim(s.skip(1))
    } else {
        s
    }
}

/// The minimal two's-complement bytes, executable.
#[verifier::loop_isolation(false)]
#[verifier::rlimit(100)]
pub fn tc_bytes_exec(x: i128) -> (r: Vec<u8>)
    ensures
        r@ =~= tc_bytes(x as int),
{
    let u: u128 = if x >= 0 {
        x as u128
    } else {
        let mag: u128 = ((-(x + 1)) as u128) + 1;
        (0xffffffffffffffffffffffffffffffffu128 - mag) + 1
    };
    proof {
        if x < 0 {
            assert(u as int == x + 0x100000000000000000000000000000000);
        }
    }
    let mut sixteen: Vec<u8> = Vec::new();
    let mut i: usize = 0;
    while i < 16
        invariant
            i <= 16,
            sixteen@.len() == i,
            forall|j: int|
                0 <= j < i ==> #[trigger] sixteen@[j] as int == (u as int / pow256(15 - j)) % 256,
        decreases 16 - i,
    {
        proof {
            lemma_pow256_bound(15 - i as int);
        }
        let p = pow256_exec((15 - i) as u32);
        proof {
            lemma_pow256_pos(15 - i as int);
        }
        sixteen.push(((u / p) % 256) as u8);
        i = i + 1;
    }
    proof {
        assert(sixteen@ =~= tc_sixteen(x as int));
    }
    let mut from: usize = 0;
    proof {
        assert(sixteen@.skip(0) =~= sixteen@);
    }
    while from + 1 < 16 && ((sixteen[from] == 0 && sixteen[from + 1] < 0x80) || (sixteen[from]
        == 0xff && sixteen[from + 1] >= 0x80))
        invariant
            from < 16,
            sixteen@.len() == 16,
            tc_trim(sixteen@) == tc_trim(sixteen@.skip(from as int)),
        decreases 16 - from,
    {
        proof {
            let s = sixteen@.skip(from as int);
            assert(s[0] == sixteen@[from as int]);
            assert(s[1] == sixteen@[from as int + 1]);
            assert(s.skip(1) =~= sixteen@.skip(from as int + 1));
        }
        from = from + 1;
    }
    proof {
        let s = sixteen@.skip(from as int);
        if from + 1 < 16 {
            assert(s[0] == sixteen@[from as int]);
            assert(s[1] == sixteen@[from as int + 1]);
            assert(tc_trim(s) == s);
        } else {
            assert(s.len() == 1);
        }
    }
    let r = crate::datatypes::utils::copy_range(sixteen.as_slice(), from, 16 - from);
    proof {
        assert(r@ =~= sixteen@.skip(from as int));
    }
    r
}

/// Powers of 256, executable.
#[verifier::loop_isolation(false)]
fn pow256_exec(k: u32) -> (r: u128)
    requires
        k <= 15,
    ensures
        r as int == pow256(k as int),
        r >= 1,
{
    proof {
        lemma_pow256_pos(0);
    }
    let mut r: u128 = 1;
    let mut i: u32 = 0;
    while i < k
        invariant
            i <= k,
            r as int == pow256(i as int),
            r >= 1,
        decreases k - i,
    {
        proof {
            lemma_pow256_bound(i as int + 1);
            assert(pow256(i as int + 1) == 256 * pow256(i as int));
        }
        r = r * 256;
        i = i + 1;
    }
    r
}

pub proof fn lemma_pow256_bound(k: int)
    requires
        0 <= k <= 15,
    ensures
        pow256(k) <= pow256(15),
        pow256(15) == 0x1000000000000000000000000000000,
    decreases 15 - k,
{
    if k < 15 {
        lemma_pow256_bound(k + 1);
        lemma_pow256_pos(k);
    }
    assert(pow256(15) == 0x1000000000000000000000000000000) by {
        reveal_with_fuel(pow256, 17);
    }
}

pub proof fn lemma_pow256_pos(k: int)
    ensures
        pow256(k) >= 1,
    decreases k,
{
    if k > 0 {
        lemma_pow256_pos(k - 1);
    }
}

pub proof fn lemma_lead_zeros(s: Seq<u8>)
    ensures
        0 <= lead_zeros(s) <= s.len(),
    decreases s.len(),
{
    if s.len() > 0 && s[0] == 0x30 {
        lemma_lead_zeros(s.skip(1));
    }
}

/// A zero prefix of length `k` with another zero after it extends the
/// count past `k`.
pub proof fn lemma_lead_zeros_step(s: Seq<u8>, k: int)
    requires
        0 <= k < s.len(),
        forall|j: int| 0 <= j <= k ==> s[j] == 0x30,
    ensures
        lead_zeros(s) >= k + 1,
    decreases k,
{
    if k == 0 {
        lemma_lead_zeros(s.skip(1));
    } else {
        assert(forall|j: int| 0 <= j <= k - 1 ==> s.skip(1)[j] == s[j + 1]);
        lemma_lead_zeros_step(s.skip(1), k - 1);
    }
}

/// The count stops at the first digit that is not zero.
pub proof fn lemma_lead_zeros_stop(s: Seq<u8>, k: int)
    requires
        0 <= k < s.len(),
        forall|j: int| 0 <= j < k ==> s[j] == 0x30,
        s[k] != 0x30,
    ensures
        lead_zeros(s) == k,
    decreases k,
{
    if k > 0 {
        assert(forall|j: int| 0 <= j < k - 1 ==> s.skip(1)[j] == s[j + 1]);
        assert(s.skip(1)[k - 1] == s[k]);
        lemma_lead_zeros_stop(s.skip(1), k - 1);
    }
}

} // verus!
