//! The PostgreSQL `interval` type: sixteen wire bytes of microseconds,
//! days and months, and its conversion to the twelve-byte little-endian
//! Parquet INTERVAL of months, days and milliseconds.  The time field is
//! reduced by floor division: whole days carry into the day field and the
//! remaining nonnegative microseconds truncate to milliseconds, so a
//! negative time borrows one day rather than producing negative
//! milliseconds.

use vstd::prelude::*;

use crate::datatypes::utils::{be_i32, be_i64, read_i32_at, read_i64_at};

verus! {

/// An interval exactly as PostgreSQL stores it.
#[derive(Clone, Copy, Debug)]
pub struct PgInterval {
    pub microseconds: i64,
    pub days: i32,
    pub months: i32,
}

/// Microseconds per day.
pub open spec fn us_per_day() -> int {
    86400000000
}

/// The four little-endian bytes of a 32-bit two's-complement value.
pub open spec fn le32(x: int) -> Seq<u8> {
    let u = if x >= 0 {
        x
    } else {
        x + 0x100000000
    };
    seq![
        (u % 256) as u8,
        ((u / 256) % 256) as u8,
        ((u / 65536) % 256) as u8,
        ((u / 16777216) % 256) as u8,
    ]
}

/// Whole days carried out of the interval's time field, rounding toward
/// minus infinity.
pub open spec fn interval_days_extra(us: int) -> int {
    us / us_per_day()
}

/// The nonnegative microseconds left after the day carry.
pub open spec fn interval_rem_us(us: int) -> int {
    us % us_per_day()
}

/// Milliseconds left after the carry, microsecond precision dropped.
pub open spec fn interval_millis(us: int) -> int {
    interval_rem_us(us) / 1000
}

/// The twelve bytes of the Parquet INTERVAL form: months, days with the
/// carried whole days, and milliseconds, each little endian.
pub open spec fn interval_fixed(months: int, days: int, us: int) -> Seq<u8> {
    le32(months) + le32(days + interval_days_extra(us)) + le32(interval_millis(us))
}

/// Whether the carried day count still fits the 32-bit day field.
pub open spec fn interval_days_fit(days: int, us: int) -> bool {
    i32::MIN <= days + interval_days_extra(us) <= i32::MAX
}

/// Parse the wire form of an interval.
pub fn parse_interval(b: &[u8]) -> (r: Result<PgInterval, String>)
    ensures
        r is Ok <==> b@.len() == 16,
        (r matches Result::Ok(iv) ==> iv.microseconds == be_i64(b@) && iv.days as int == be_i32(
            b@.skip(8),
        ) && iv.months as int == be_i32(b@.skip(12))),
{
    if b.len() != 16 {
        return Result::Err(crate::appenders::generic::err_string(
            "unexpected width of an interval value",
        ));
    }
    let time = read_i64_at(b, 0);
    let day = read_i32_at(b, 8);
    let month = read_i32_at(b, 12);
    proof {
        assert(b@.skip(0) =~= b@);
    }
    Result::Ok(PgInterval { microseconds: time, days: day, months: month })
}

/// The little-endian bytes of a signed 32-bit value.
fn le32_exec(x: i32, out: &mut Vec<u8>)
    ensures
        final(out)@ =~= old(out)@ + le32(x as int),
{
    let u: u32 = if x >= 0 {
        x as u32
    } else {
        ((x as i64) + 0x100000000i64) as u32
    };
    out.push((u % 256) as u8);
    out.push(((u / 256) % 256) as u8);
    out.push(((u / 65536) % 256) as u8);
    out.push(((u / 16777216) % 256) as u8);
}

/// Floor-divide the time field by the day length: the quotient and the
/// nonnegative remainder.
fn split_days(us: i64) -> (r: (i64, u64))
    ensures
        r.0 as int == interval_days_extra(us as int),
        r.1 as int == interval_rem_us(us as int),
        r.1 < 86400000000,
{
    let d: u64 = 86400000000;
    if us >= 0 {
        let q = (us as u64) / d;
        let rem = (us as u64) % d;
        proof {
            vstd::arithmetic::div_mod::lemma_fundamental_div_mod_converse(
                us as int,
                d as int,
                q as int,
                rem as int,
            );
        }
        (q as i64, rem)
    } else {
        let mag: u64 = ((-(us + 1)) as u64) + 1;
        let q = mag / d;
        let rem = mag % d;
        if rem == 0 {
            let de: i64 = -(q as i64);
            proof {
                vstd::arithmetic::div_mod::lemma_fundamental_div_mod_converse(
                    us as int,
                    d as int,
                    de as int,
                    0,
                );
            }
            (de, 0)
        } else {
            let de: i64 = -((q as i64) + 1);
            let rem2: u64 = d - rem;
            proof {
                assert(us as int == de as int * d + rem2 as int);
                vstd::arithmetic::div_mod::lemma_fundamental_div_mod_converse(
                    us as int,
                    d as int,
                    de as int,
                    rem2 as int,
                );
            }
            (de, rem2)
        }
    }
}

/// Build the twelve-byte Parquet INTERVAL, carrying whole days out of the
/// time field by floor division; fails only when the carried day count
/// overflows its 32-bit field.
pub fn interval_to_fixed(iv: &PgInterval, out: &mut Vec<u8>) -> (r: Result<(), String>)
    ensures
        r is Ok <==> interval_days_fit(iv.days as int, iv.microseconds as int),
        r is Ok ==> final(out)@ =~= old(out)@ + interval_fixed(
            iv.months as int,
            iv.days as int,
            iv.microseconds as int,
        ),
        r is Err ==> final(out)@ == old(out)@,
{
    let (days_extra, rem) = split_days(iv.microseconds);
    let millis: u64 = rem / 1000;
    proof {
        assert(millis as int == interval_millis(iv.microseconds as int));
        assert(millis < 86400000);
    }
    let days_sum: i64 = (iv.days as i64) + days_extra;
    if days_sum < -0x80000000i64 || days_sum > 0x7fffffffi64 {
        return Result::Err(crate::appenders::generic::err_string("interval out of range"));
    }
    le32_exec(iv.months, out);
    le32_exec(days_sum as i32, out);
    le32_exec(millis as i32, out);
    proof {
        assert(final(out)@ =~= old(out)@ + interval_fixed(
            iv.months as int,
            iv.days as int,
            iv.microseconds as int,
        ));
    }
    Result::Ok(())
}

} // verus!
