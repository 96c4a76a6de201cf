//! Row identification for error messages: the first column with a simple
//! printable value names the failing row.

use vstd::prelude::*;

use crate::datatypes::utils::{be_i32, be_i64, be_u32, read_i32_at, read_i64_at, read_u32_at};
use crate::postgres_cloner::{PgColumn, PgTypeKind};

verus! {

/// The character of one decimal digit.
pub open spec fn digit_char(d: int) -> char {
    if d == 0 {
        '0'
    } else if d == 1 {
        '1'
    } else if d == 2 {
        '2'
    } else if d == 3 {
        '3'
    } else if d == 4 {
        '4'
    } else if d == 5 {
        '5'
    } else if d == 6 {
        '6'
    } else if d == 7 {
        '7'
    } else if d == 8 {
        '8'
    } else {
        '9'
    }
}

/// The decimal text of a number, as characters.
pub open spec fn dec_chars(n: int) -> Seq<char>
    decreases n,
{
    if n < 10 {
        seq![digit_char(if n >= 0 {
            n
        } else {
            0
        })]
    } else {
        dec_chars(n / 10) + seq![digit_char(n % 10)]
    }
}

/// Append one decimal digit as text.
fn push_digit(out: &mut String, d: u8)
    requires
        d < 10,
    ensures
        final(out)@ =~= old(out)@ + seq![digit_char(d as int)],
{
    if d == 0 {
        proof {
            reveal_strlit("0");
        }
        out.append("0");
    } else if d == 1 {
        proof {
            reveal_strlit("1");
        }
        out.append("1");
    } else if d == 2 {
        proof {
            reveal_strlit("2");
        }
        out.append("2");
    } else if d == 3 {
        proof {
            reveal_strlit("3");
        }
        out.append("3");
    } else if d == 4 {
        proof {
            reveal_strlit("4");
        }
        out.append("4");
    } else if d == 5 {
        proof {
            reveal_strlit("5");
        }
        out.append("5");
    } else if d == 6 {
        proof {
            reveal_strlit("6");
        }
        out.append("6");
    } else if d == 7 {
        proof {
            reveal_strlit("7");
        }
        out.append("7");
    } else if d == 8 {
        proof {
            reveal_strlit("8");
        }
        out.append("8");
    } else {
        proof {
            reveal_strlit("9");
        }
        out.append("9");
    }
}

/// Append a number as decimal text.
pub fn push_u64(out: &mut String, n: u64)
    ensures
        final(out)@ =~= old(out)@ + dec_chars(n as int),
    decreases n,
{
    if n < 10 {
        push_digit(out, n as u8);
    } else {
        push_u64(out, n / 10);
        push_digit(out, (n % 10) as u8);
    }
}

/// Append a signed number as decimal text.
pub fn push_i64(out: &mut String, n: i64)
    ensures
        final(out)@ =~= old(out)@ + (if n < 0 {
            seq!['-'] + dec_chars(-(n as int))
        } else {
            dec_chars(n as int)
        }),
{
    if n < 0 {
        proof {
            reveal_strlit("-");
        }
        out.append("-");
        let mag: u64 = ((-(n + 1)) as u64) + 1;
        push_u64(out, mag);
    } else {
        push_u64(out, n as u64);
    }
}

/// The character of one lower-case hex digit.
pub open spec fn hex_char(d: int) -> char {
    if d < 10 {
        digit_char(d)
    } else if d == 10 {
        'a'
    } else if d == 11 {
        'b'
    } else if d == 12 {
        'c'
    } else if d == 13 {
        'd'
    } else if d == 14 {
        'e'
    } else {
        'f'
    }
}

/// One byte as two lower-case hex digits.
pub open spec fn hex_byte_chars(b: int) -> Seq<char> {
    seq![hex_char(b / 16), hex_char(b % 16)]
}

/// Append one byte as two lower-case hex digits.
fn push_hex_byte(out: &mut String, b: u8)
    ensures
        final(out)@ =~= old(out)@ + hex_byte_chars(b as int),
{
    let hi = b / 16;
    let lo = b % 16;
    push_hex_digit(out, hi);
    push_hex_digit(out, lo);
}

fn push_hex_digit(out: &mut String, d: u8)
    requires
        d < 16,
    ensures
        final(out)@ =~= old(out)@ + seq![hex_char(d as int)],
{
    if d < 10 {
        push_digit(out, d);
    } else if d == 10 {
        proof {
            reveal_strlit("a");
        }
        out.append("a");
    } else if d == 11 {
        proof {
            reveal_strlit("b");
        }
        out.append("b");
    } else if d == 12 {
        proof {
            reveal_strlit("c");
        }
        out.append("c");
    } else if d == 13 {
        proof {
            reveal_strlit("d");
        }
        out.append("d");
    } else if d == 14 {
        proof {
            reveal_strlit("e");
        }
        out.append("e");
    } else {
        proof {
            reveal_strlit("f");
        }
        out.append("f");
    }
}

/// Relies on std's String::from_utf8: it returns the string of exactly
/// the given bytes when they are valid UTF-8, and an error otherwise,
/// so the returned string's UTF-8 encoding is the input.
#[verifier::external_body]
pub(crate) fn string_from_utf8(b: Vec<u8>) -> (r: Option<String>)
    ensures
        r is Some <==> vstd::utf8::valid_utf8(b@),
        r matches Option::Some(s) ==> vstd::utf8::encode_utf8(s@) == b@,
{
    match String::from_utf8(b) {
        Result::Ok(s) => Option::Some(s),
        Result::Err(_) => Option::None,
    }
}

/// The cell of one column of a row, as bytes, where it exists.
pub open spec fn cell_at(row: Seq<Option<Vec<u8>>>, i: int) -> Option<Seq<u8>> {
    if 0 <= i < row.len() {
        match row[i] {
            Option::Some(v) => Option::Some(v@),
            Option::None => Option::None,
        }
    } else {
        Option::None
    }
}

/// Whether one column can identify a row: a simple column whose cell is
/// present and of a printable name and width.
pub open spec fn identifies(c: PgColumn, cell: Option<Seq<u8>>) -> bool {
    &&& c.ty.kind is Simple
    &&& match cell {
        Option::Some(b) => {
            ||| (c.ty.name@ == "int4"@ && b.len() == 4)
            ||| (c.ty.name@ == "int8"@ && b.len() == 8)
            ||| (c.ty.name@ == "oid"@ && b.len() == 4)
            ||| (c.ty.name@ == "uuid"@ && b.len() == 16)
            ||| c.ty.name@ == "text"@
        },
        Option::None => false,
    }
}

/// The first column from `i` on that identifies the row, or the column
/// count where none does.
pub open spec fn ident_from(columns: Seq<PgColumn>, row: Seq<Option<Vec<u8>>>, i: int) -> int
    decreases columns.len() - i,
{
    if i < 0 || i >= columns.len() {
        columns.len() as int
    } else if identifies(columns[i], cell_at(row, i)) {
        i
    } else {
        ident_from(columns, row, i + 1)
    }
}

/// A signed number as decimal text.
pub open spec fn int_chars(n: int) -> Seq<char> {
    if n < 0 {
        seq!['-'] + dec_chars(-n)
    } else {
        dec_chars(n)
    }
}

/// A uuid from byte `k` on: lower-case hex pairs with dashes in the
/// canonical 8-4-4-4-12 grouping.
pub open spec fn uuid_chars_from(b: Seq<u8>, k: int) -> Seq<char>
    decreases 16 - k,
{
    if k < 0 || k >= 16 {
        Seq::empty()
    } else {
        (if k == 4 || k == 6 || k == 8 || k == 10 {
            seq!['-']
        } else {
            Seq::empty()
        }) + hex_byte_chars(b[k] as int) + uuid_chars_from(b, k + 1)
    }
}

/// What an identifying column prints: `name=value` for an exact value,
/// the bare column name for text.
pub open spec fn ident_text(c: PgColumn, b: Seq<u8>) -> Seq<char> {
    if c.ty.name@ == "int4"@ {
        c.name@ + "="@ + int_chars(be_i32(b))
    } else if c.ty.name@ == "int8"@ {
        c.name@ + "="@ + int_chars(be_i64(b))
    } else if c.ty.name@ == "oid"@ {
        c.name@ + "="@ + dec_chars(be_u32(b))
    } else if c.ty.name@ == "uuid"@ {
        c.name@ + "="@ + uuid_chars_from(b, 0)
    } else if vstd::utf8::valid_utf8(b) {
        c.name@ + seq!['=', '"'] + vstd::utf8::decode_utf8(b) + seq!['"']
    } else {
        c.name@
    }
}

/// A short identification of a row for diagnostics: the first simple
/// column whose value is present and printable, as `name=value`.
/// Integer, oid and uuid values print exactly; for a text column only
/// the column name is given.
pub fn identify_row(columns: &Vec<PgColumn>, row: &Vec<Option<Vec<u8>>>) -> (r: String)
    ensures
        ({
            let j = ident_from(columns@, row@, 0);
            if j < columns@.len() {
                r@ == ident_text(columns@[j], cell_at(row@, j)->Some_0)
            } else {
                r@ == "row"@
            }
        }),
{
    let n = columns.len();
    let mut i: usize = 0;
    while i < n
        invariant
            i <= n,
            n == columns@.len(),
            ident_from(columns@, row@, 0) == ident_from(columns@, row@, i as int),
        decreases n - i,
    {
        let col = &columns[i];
        let is_simple = match &col.ty.kind {
            PgTypeKind::Simple => true,
            _ => false,
        };
        if is_simple && i < row.len() {
            match &row[i] {
                Option::Some(cell) => {
                    let name = col.ty.name.as_str();
                    proof {
                        assert(cell_at(row@, i as int) == Option::Some(cell@));
                    }
                    if crate::postgres_cloner::str_eq(name, "int4") && cell.len() == 4 {
                        let mut out = col.name.clone();
                        proof {
                            reveal_strlit("=");
                        }
                        out.append("=");
                        let v = read_i32_at(cell.as_slice(), 0);
                        push_i64(&mut out, v as i64);
                        proof {
                            assert(identifies(columns@[i as int], cell_at(row@, i as int)));
                            assert(cell@.skip(0) =~= cell@);
                            assert(out@ =~= col.name@ + "="@ + int_chars(be_i32(cell@)));
                        }
                        return out;
                    } else if crate::postgres_cloner::str_eq(name, "int8") && cell.len() == 8 {
                        let mut out = col.name.clone();
                        proof {
                            reveal_strlit("=");
                        }
                        out.append("=");
                        let v = read_i64_at(cell.as_slice(), 0);
                        push_i64(&mut out, v);
                        proof {
                            assert(identifies(columns@[i as int], cell_at(row@, i as int)));
                            reveal_strlit("int4");
                            reveal_strlit("int8");
                            assert(("int8")@[3] != ("int4")@[3]);
                            assert(cell@.skip(0) =~= cell@);
                            assert(out@ =~= col.name@ + "="@ + int_chars(be_i64(cell@)));
                        }
                        return out;
                    } else if crate::postgres_cloner::str_eq(name, "oid") && cell.len() == 4 {
                        let mut out = col.name.clone();
                        proof {
                            reveal_strlit("=");
                        }
                        out.append("=");
                        let v = read_u32_at(cell.as_slice(), 0);
                        push_u64(&mut out, v as u64);
                        proof {
                            assert(identifies(columns@[i as int], cell_at(row@, i as int)));
                            reveal_strlit("int4");
                            reveal_strlit("int8");
                            reveal_strlit("oid");
                            assert(("oid")@.len() != ("int4")@.len());
                            assert(cell@.skip(0) =~= cell@);
                            assert(out@ =~= col.name@ + "="@ + dec_chars(be_u32(cell@)));
                        }
                        return out;
                    } else if crate::postgres_cloner::str_eq(name, "uuid") && cell.len() == 16 {
                        let mut out = col.name.clone();
                        proof {
                            reveal_strlit("=");
                        }
                        out.append("=");
                        let ghost base = col.name@ + "="@;
                        let mut k: usize = 0;
                        while k < 16
                            invariant
                                k <= 16,
                                cell@.len() == 16,
                                out@ + uuid_chars_from(cell@, k as int) =~= base
                                    + uuid_chars_from(cell@, 0),
                            decreases 16 - k,
                        {
                            if k == 4 || k == 6 || k == 8 || k == 10 {
                                proof {
                                    reveal_strlit("-");
                                    assert(("-")@ =~= seq!['-']);
                                }
                                out.append("-");
                            }
                            push_hex_byte(&mut out, cell[k]);
                            k = k + 1;
                            proof {
                                assert(out@ + uuid_chars_from(cell@, k as int) =~= base
                                    + uuid_chars_from(cell@, 0));
                            }
                        }
                        proof {
                            assert(identifies(columns@[i as int], cell_at(row@, i as int)));
                            reveal_strlit("int4");
                            reveal_strlit("int8");
                            reveal_strlit("oid");
                            reveal_strlit("uuid");
                            assert(("uuid")@[0] != ("int4")@[0]);
                            assert(("uuid")@[0] != ("int8")@[0]);
                            assert(("uuid")@.len() != ("oid")@.len());
                            assert(out@ =~= col.name@ + "="@ + uuid_chars_from(cell@, 0));
                        }
                        return out;
                    } else if crate::postgres_cloner::str_eq(name, "text") {
                        proof {
                            assert(identifies(columns@[i as int], cell_at(row@, i as int)));
                            reveal_strlit("int4");
                            reveal_strlit("int8");
                            reveal_strlit("oid");
                            reveal_strlit("uuid");
                            reveal_strlit("text");
                            assert(("text")@[0] != ("int4")@[0]);
                            assert(("text")@[0] != ("int8")@[0]);
                            assert(("text")@.len() != ("oid")@.len());
                            assert(("text")@[0] != ("uuid")@[0]);
                        }
                        let copy = crate::datatypes::utils::copy_range(
                            cell.as_slice(),
                            0,
                            cell.len(),
                        );
                        proof {
                            assert(copy@ =~= cell@);
                        }
                        match string_from_utf8(copy) {
                            Option::Some(sv) => {
                                let mut out = col.name.clone();
                                proof {
                                    reveal_strlit("=\"");
                                    reveal_strlit("\"");
                                }
                                out.append("=\"");
                                out.append(sv.as_str());
                                out.append("\"");
                                proof {
                                    vstd::utf8::encode_utf8_decode_utf8(sv@);
                                    assert(("=\"")@ =~= seq!['=', '"']);
                                    assert(("\"")@ =~= seq!['"']);
                                    assert(out@ =~= col.name@ + seq!['=', '"']
                                        + vstd::utf8::decode_utf8(cell@) + seq!['"']);
                                }
                                return out;
                            },
                            Option::None => {
                                return col.name.clone();
                            },
                        }
                    }
                },
                Option::None => {},
            }
        }
        proof {
            assert(!identifies(columns@[i as int], cell_at(row@, i as int)));
        }
        i = i + 1;
    }
    let mut out = String::new();
    out.append("row");
    proof {
        assert(out@ =~= ("row")@);
    }
    out
}

} // verus!
