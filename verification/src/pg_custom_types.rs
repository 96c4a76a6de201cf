//! Decoders for the PostgreSQL binary representations of structured
//! values: ranges and composite records.  Both decode into a pseudo-row of
//! optional byte cells that the appender tree then distributes.

use vstd::prelude::*;

use crate::appenders::generic::err_string;
use crate::datatypes::utils::{be_i32, copy_range, read_i32_at};

verus! {

/// The length prefix every nested PostgreSQL value carries.
pub fn read_pg_len(bytes: &[u8]) -> (r: i32)
    requires
        bytes@.len() >= 4,
    ensures
        r == be_i32(bytes@),
{
    crate::datatypes::utils::read_i32(bytes)
}

/// Copy `len` bytes out of `raw` starting at `*at`, advancing `*at`.
pub fn read_byte_vec(raw: &[u8], at: &mut usize, len: usize) -> (r: Vec<u8>)
    requires
        *old(at) + len <= raw@.len(),
    ensures
        r@ =~= raw@.subrange(*old(at) as int, *old(at) + len),
        *final(at) == *old(at) + len,
{
    let n = raw.len();
    proof {
        assert(*at + len <= n);
    }
    let r = copy_range(raw, *at, len);
    *at = *at + len;
    r
}

/// A decoded enumerated value: the UTF-8 bytes of its label.
#[derive(Debug, Clone)]
pub struct PgEnum {
    pub name: Vec<u8>,
}

/// Read an enum label: the whole value is the label, which must be
/// UTF-8.
pub fn parse_enum_label(b: &[u8]) -> (r: Result<PgEnum, String>)
    ensures
        r is Ok <==> crate::datatypes::utils::utf8_ok(b@),
        r matches Result::Ok(e) ==> e.name@ == b@,
{
    if !crate::datatypes::utils::is_utf8(b) {
        return Result::Err(
            crate::appenders::generic::err_string("enum label is not valid UTF-8"),
        );
    }
    let name = copy_range(b, 0, b.len());
    proof {
        assert(name@ =~= b@);
    }
    Result::Ok(PgEnum { name })
}

/// A decoded range value: the raw bytes of its bounds and its flags.
/// An empty range has no bounds and both inclusivity flags cleared.
#[derive(Debug)]
pub struct PgRawRange {
    pub lower: Option<Vec<u8>>,
    pub upper: Option<Vec<u8>>,
    pub lower_inclusive: bool,
    pub upper_inclusive: bool,
    pub is_empty: bool,
}

/// Ghost mirror of a decoded range.
pub ghost struct RangeV {
    pub lower: Option<Seq<u8>>,
    pub upper: Option<Seq<u8>>,
    pub lower_inclusive: bool,
    pub upper_inclusive: bool,
    pub is_empty: bool,
}

/// The byte cells of an optional byte string.
pub open spec fn opt_bytes_view(o: Option<Vec<u8>>) -> Option<Seq<u8>> {
    match o {
        Option::Some(v) => Option::Some(v@),
        Option::None => Option::None,
    }
}

/// One optional bound read at position `at`: a length prefix, negative
/// for an absent bound, else that many value bytes.  `None` when the
/// bytes run out.
pub open spec fn spec_bound_at(b: Seq<u8>, at: int) -> Option<(Option<Seq<u8>>, int)> {
    if at + 4 > b.len() {
        Option::None
    } else {
        let len = be_i32(b.skip(at));
        if len < 0 {
            Option::Some((Option::None, at + 4))
        } else if at + 4 + len > b.len() {
            Option::None
        } else {
            Option::Some((Option::Some(b.subrange(at + 4, at + 4 + len)), at + 4 + len))
        }
    }
}

/// The range a well-formed wire value denotes: the flags byte, then the
/// lower and upper bounds, absent when the empty, infinite or null flag
/// bits say so; an empty range is the flags byte alone and normalises
/// both bounds away; no bytes may remain.
pub open spec fn spec_parse_range(b: Seq<u8>) -> Option<RangeV> {
    if b.len() < 1 {
        Option::None
    } else {
        let flags = b[0] as int;
        if flags % 2 == 1 {
            if b.len() == 1 {
                Option::Some(
                    RangeV {
                        lower: Option::None,
                        upper: Option::None,
                        lower_inclusive: false,
                        upper_inclusive: false,
                        is_empty: true,
                    },
                )
            } else {
                Option::None
            }
        } else {
            let lower_absent = (flags / 8) % 2 == 1 || (flags / 32) % 2 == 1;
            let lo = if lower_absent {
                Option::Some((Option::<Seq<u8>>::None, 1int))
            } else {
                spec_bound_at(b, 1)
            };
            match lo {
                Option::None => Option::None,
                Option::Some((lower, at2)) => {
                    let upper_absent = (flags / 16) % 2 == 1 || (flags / 64) % 2 == 1;
                    let up = if upper_absent {
                        Option::Some((Option::<Seq<u8>>::None, at2))
                    } else {
                        spec_bound_at(b, at2)
                    };
                    match up {
                        Option::None => Option::None,
                        Option::Some((upper, at3)) => if at3 == b.len() {
                            Option::Some(
                                RangeV {
                                    lower,
                                    upper,
                                    lower_inclusive: (flags / 2) % 2 == 1,
                                    upper_inclusive: (flags / 4) % 2 == 1,
                                    is_empty: false,
                                },
                            )
                        } else {
                            Option::None
                        },
                    }
                },
            }
        }
    }
}

/// Parse the wire form of a range value: a flags byte, then the absent or
/// length-prefixed lower and upper bounds, with nothing left over.
pub fn parse_range(b: &[u8]) -> (r: Result<PgRawRange, String>)
    ensures
        r is Ok <==> spec_parse_range(b@) is Some,
        (r matches Result::Ok(rr) ==> spec_parse_range(b@) == Option::Some(
            RangeV {
                lower: opt_bytes_view(rr.lower),
                upper: opt_bytes_view(rr.upper),
                lower_inclusive: rr.lower_inclusive,
                upper_inclusive: rr.upper_inclusive,
                is_empty: rr.is_empty,
            },
        )),
{
    if b.len() < 1 {
        return Result::Err(err_string("malformed range value"));
    }
    let flags = b[0];
    let is_empty = flags % 2 == 1;
    let lower_inclusive = (flags / 2) % 2 == 1;
    let upper_inclusive = (flags / 4) % 2 == 1;
    let lower_inf = (flags / 8) % 2 == 1;
    let upper_inf = (flags / 16) % 2 == 1;
    let lower_null = (flags / 32) % 2 == 1;
    let upper_null = (flags / 64) % 2 == 1;
    if is_empty {
        if b.len() != 1 {
            return Result::Err(err_string("malformed range value"));
        }
        return Result::Ok(
            PgRawRange {
                lower: Option::None,
                upper: Option::None,
                lower_inclusive: false,
                upper_inclusive: false,
                is_empty: true,
            },
        );
    }
    let mut at: usize = 1;
    let n = b.len();
    let lower: Option<Vec<u8>> = if lower_inf || lower_null {
        Option::None
    } else {
        if n - at < 4 {
            return Result::Err(err_string("malformed range value"));
        }
        let len = read_i32_at(b, at);
        at = at + 4;
        if len < 0 {
            Option::None
        } else {
            let l = len as usize;
            if l > n - at {
                return Result::Err(err_string("malformed range value"));
            }
            let v = read_byte_vec(b, &mut at, l);
            Option::Some(v)
        }
    };
    let upper: Option<Vec<u8>> = if upper_inf || upper_null {
        Option::None
    } else {
        if n - at < 4 {
            return Result::Err(err_string("malformed range value"));
        }
        let len = read_i32_at(b, at);
        at = at + 4;
        if len < 0 {
            Option::None
        } else {
            let l = len as usize;
            if l > n - at {
                return Result::Err(err_string("malformed range value"));
            }
            let v = read_byte_vec(b, &mut at, l);
            Option::Some(v)
        }
    };
    if at != n {
        return Result::Err(err_string("range value has bytes left over"));
    }
    Result::Ok(PgRawRange { lower, upper, lower_inclusive, upper_inclusive, is_empty: false })
}

/// A decoded composite value: one optional byte cell per declared field.
/// Fields past the number carried on the wire are absent.
#[derive(Debug)]
pub struct PgRawRecord {
    pub fields: Vec<Option<Vec<u8>>>,
}

/// `k` wire fields read from position `at`: per field an object
/// identifier and a length, negative for NULL, else that many value
/// bytes.  `None` when the bytes run out.
pub open spec fn spec_record_fields(b: Seq<u8>, at: int, k: nat) -> Option<(
    Seq<Option<Seq<u8>>>,
    int,
)>
    decreases k,
{
    if k == 0 {
        Option::Some((Seq::empty(), at))
    } else if at + 8 > b.len() {
        Option::None
    } else {
        let len = be_i32(b.skip(at + 4));
        if len < 0 {
            match spec_record_fields(b, at + 8, (k - 1) as nat) {
                Option::None => Option::None,
                Option::Some((rest, end)) => Option::Some(
                    (seq![Option::<Seq<u8>>::None] + rest, end),
                ),
            }
        } else if at + 8 + len > b.len() {
            Option::None
        } else {
            match spec_record_fields(b, at + 8 + len, (k - 1) as nat) {
                Option::None => Option::None,
                Option::Some((rest, end)) => Option::Some(
                    (seq![Option::Some(b.subrange(at + 8, at + 8 + len))] + rest, end),
                ),
            }
        }
    }
}

/// The cells a well-formed composite wire value denotes, padded with
/// NULLs up to the declared field count: a field count that must not
/// exceed the declared one, then that many wire fields.
pub open spec fn spec_parse_record(b: Seq<u8>, declared: int) -> Option<Seq<Option<Seq<u8>>>> {
    if b.len() < 4 {
        Option::None
    } else {
        let nc = be_i32(b);
        if nc < 0 || nc > declared {
            Option::None
        } else {
            match spec_record_fields(b, 4, nc as nat) {
                Option::None => Option::None,
                Option::Some((cells, _end)) => Option::Some(
                    cells + Seq::new((declared - nc) as nat, |i: int| Option::<Seq<u8>>::None),
                ),
            }
        }
    }
}

/// Parse the wire form of a composite: the field count, then per field an
/// object identifier, a length and the bytes; a negative length is NULL.
/// `declared` is the number of fields the planned type has; missing
/// trailing fields decode as NULL.
#[verifier::loop_isolation(false)]
pub fn parse_record(b: &[u8], declared: usize) -> (r: Result<PgRawRecord, String>)
    ensures
        r is Ok <==> spec_parse_record(b@, declared as int) is Some,
        (r matches Result::Ok(rr) ==> {
            &&& rr.fields@.len() == declared
            &&& spec_parse_record(b@, declared as int) == Option::Some(
                crate::appenders::records::cells_view(rr.fields@),
            )
        }),
{
    if b.len() < 4 {
        return Result::Err(err_string("malformed composite value"));
    }
    let num_cols_i = read_i32_at(b, 0);
    proof {
        assert(b@.skip(0) =~= b@);
    }
    if num_cols_i < 0 {
        return Result::Err(err_string("malformed composite value"));
    }
    let num_cols = num_cols_i as usize;
    if num_cols > declared {
        return Result::Err(err_string("composite value carries more fields than its type"));
    }
    let n = b.len();
    let mut at: usize = 4;
    let mut cells: Vec<Option<Vec<u8>>> = Vec::new();
    let mut i: usize = 0;
    while i < num_cols
        invariant
            i <= num_cols,
            cells@.len() == i,
            4 <= at <= n,
            spec_record_fields(b@, 4, num_cols as nat) is Some <==> spec_record_fields(
                b@,
                at as int,
                (num_cols - i) as nat,
            ) is Some,
            spec_record_fields(b@, at as int, (num_cols - i) as nat) matches Option::Some(rem)
                ==> spec_record_fields(b@, 4, num_cols as nat) == Option::Some(
                (crate::appenders::records::cells_view(cells@) + rem.0, rem.1),
            ),
        decreases num_cols - i,
    {
        let ghost rem_pre = spec_record_fields(b@, at as int, (num_cols - i) as nat);
        if n - at < 8 {
            proof {
                assert(rem_pre is None);
            }
            return Result::Err(err_string("malformed composite value"));
        }
        let len = read_i32_at(b, at + 4);
        let ghost at0 = at as int;
        at = at + 8;
        if len < 0 {
            cells.push(Option::None);
            proof {
                lemma_record_fields_cons(b@, at0, (num_cols - i) as nat);
            }
        } else {
            let l = len as usize;
            if l > n - at {
                proof {
                    assert(rem_pre is None);
                }
                return Result::Err(err_string("malformed composite value"));
            }
            let v = read_byte_vec(b, &mut at, l);
            cells.push(Option::Some(v));
            proof {
                lemma_record_fields_cons(b@, at0, (num_cols - i) as nat);
            }
        }
        i = i + 1;
    }
    proof {
        assert(spec_record_fields(b@, at as int, 0) == Option::<(Seq<Option<Seq<u8>>>, int)>::Some(
            (Seq::<Option<Seq<u8>>>::empty(), at as int),
        ));
    }
    while i < declared
        invariant
            num_cols <= i <= declared,
            cells@.len() == i,
            forall|j: int| num_cols <= j < i ==> cells@[j] is None,
            forall|j: int| 0 <= j < num_cols ==> cells@[j] == cells@.subrange(0, num_cols as int)[j],
            spec_record_fields(b@, 4, num_cols as nat) matches Option::Some(full)
                ==> full.0 == crate::appenders::records::cells_view(
                cells@.subrange(0, num_cols as int),
            ),
        decreases declared - i,
    {
        cells.push(Option::None);
        i = i + 1;
    }
    let r = PgRawRecord { fields: cells };
    proof {
        let full = spec_record_fields(b@, 4, num_cols as nat);
        match full {
            Option::Some(f) => {
                assert(crate::appenders::records::cells_view(r.fields@) =~= f.0 + Seq::new(
                    (declared - num_cols) as nat,
                    |j: int| Option::<Seq<u8>>::None,
                ));
            },
            Option::None => {
                assert(false);
            },
        }
    }
    Result::Ok(r)
}

/// One wire field peeled off the front of a field run.
proof fn lemma_record_fields_cons(b: Seq<u8>, at: int, k: nat)
    requires
        k >= 1,
        at + 8 <= b.len(),
    ensures
        ({
            let len = be_i32(b.skip(at + 4));
            &&& (len < 0 ==> spec_record_fields(b, at, k) == (match spec_record_fields(
                b,
                at + 8,
                (k - 1) as nat,
            ) {
                Option::None => Option::<(Seq<Option<Seq<u8>>>, int)>::None,
                Option::Some((rest, end)) => Option::Some(
                    (seq![Option::<Seq<u8>>::None] + rest, end),
                ),
            }))
            &&& (len >= 0 && at + 8 + len <= b.len() ==> spec_record_fields(b, at, k) == (
            match spec_record_fields(b, at + 8 + len, (k - 1) as nat) {
                Option::None => Option::<(Seq<Option<Seq<u8>>>, int)>::None,
                Option::Some((rest, end)) => Option::Some(
                    (seq![Option::Some(b.subrange(at + 8, at + 8 + len))] + rest, end),
                ),
            }))
        }),
{
}

} // verus!
