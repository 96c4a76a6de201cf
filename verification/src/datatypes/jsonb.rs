//! The PostgreSQL `jsonb` type on the wire: one version byte, which must
//! be one, then the JSON text, which must be UTF-8.

use vstd::prelude::*;

verus! {

/// The text of a decoded `jsonb` or `json` value.
#[derive(Debug)]
pub struct PgRawJsonb {
    pub data: Vec<u8>,
}

/// Strip the version byte of a `jsonb` value; any version but one, and
/// any text that is not UTF-8, is a fatal decode error.
pub fn parse_jsonb(b: &[u8]) -> (r: Result<PgRawJsonb, String>)
    ensures
        r is Ok <==> b@.len() >= 1 && b@[0] == 1 && crate::datatypes::utils::utf8_ok(b@.skip(1)),
        r matches Result::Ok(j) ==> j.data@ == b@.skip(1),
{
    if b.len() < 1 || b[0] != 1 {
        return Result::Err(crate::appenders::generic::err_string("unknown jsonb version"));
    }
    let data = crate::datatypes::utils::copy_range(b, 1, b.len() - 1);
    proof {
        assert(data@ =~= b@.skip(1));
    }
    if !crate::datatypes::utils::is_utf8(data.as_slice()) {
        return Result::Err(
            crate::appenders::generic::err_string("jsonb text is not valid UTF-8"),
        );
    }
    Result::Ok(PgRawJsonb { data })
}

} // verus!
