//! The PostgreSQL `money` type: a 64-bit amount of hundredths, stored in
//! Parquet as a DECIMAL with two fraction digits.

use vstd::prelude::*;

use crate::datatypes::utils::{be_i64, read_i64};

verus! {

/// A money value: the amount in hundredths of the currency unit.
#[derive(Clone, Copy, Debug)]
pub struct PgMoney {
    pub amount: i64,
}

/// Parse the wire form of a money value: eight big-endian bytes.
pub fn parse_money(b: &[u8]) -> (r: Result<PgMoney, String>)
    ensures
        r is Ok <==> b@.len() == 8,
        r matches Result::Ok(m) ==> m.amount == be_i64(b@),
{
    if b.len() != 8 {
        return Result::Err(
            crate::appenders::generic::err_string("unexpected width of a money value"),
        );
    }
    Result::Ok(PgMoney { amount: read_i64(b) })
}

} // verus!
