//! The variable-length byte-array column appender.  Values accumulate in
//! one contiguous buffer with a side table of offsets, so that buffering a
//! value never allocates; a flush cuts the buffer back into one byte
//! string per value.

use vstd::prelude::*;

use crate::appenders::generic::err_string;
use crate::appenders::records::{
    appended1, chunk_matches, lemma_skip_push, lemma_vals_push, vals_of, ChunkValues,
    ColumnChunkData, LeafModel, PgV, PgValue, PqVal, Rec,
};
use crate::datatypes::utils::copy_range;
use crate::level_index::{LevelIndexList, LevelIndexState};

verus! {

/// The conversion a byte-array column applies: from the decoded value to
/// the byte string that is buffered.
pub enum ByteConv {
    /// The wire bytes unchanged: bytea.
    RawPass,
    /// The wire bytes checked to be UTF-8 and passed through: text and
    /// its relatives, json, enum labels.
    Utf8Pass,
    /// `jsonb`: a leading version byte, which must be one, then UTF-8
    /// text.
    JsonbStrip,
    /// `macaddr` as lower-case hex text with colons.
    MacText,
    /// `bit`/`varbit` as text of zeros and ones.
    VarbitText,
    /// `numeric` as exact decimal text.
    NumericTextWire,
    /// `inet` as address text: dotted decimal, or colon-separated hex
    /// groups without zero compression.
    InetText,
}

/// What a byte conversion yields.
pub ghost enum BRes {
    BErr,
    BVal(Seq<u8>),
}

/// Lower-case hex digit.
pub open spec fn hex_digit(d: int) -> u8 {
    if d < 10 {
        (0x30 + d) as u8
    } else {
        (0x61 + (d - 10)) as u8
    }
}

/// `macaddr` text form: six bytes as colon-separated lower-case hex.
pub open spec fn mac_text(s: Seq<u8>) -> Seq<u8> {
    seq![
        hex_digit(s[0] as int / 16),
        hex_digit(s[0] as int % 16),
        0x3au8,
        hex_digit(s[1] as int / 16),
        hex_digit(s[1] as int % 16),
        0x3au8,
        hex_digit(s[2] as int / 16),
        hex_digit(s[2] as int % 16),
        0x3au8,
        hex_digit(s[3] as int / 16),
        hex_digit(s[3] as int % 16),
        0x3au8,
        hex_digit(s[4] as int / 16),
        hex_digit(s[4] as int % 16),
        0x3au8,
        hex_digit(s[5] as int / 16),
        hex_digit(s[5] as int % 16),
    ]
}

/// Bit `j` of a packed bit string, most significant first.
pub open spec fn bit_char(bytes: Seq<u8>, j: int) -> u8 {
    if (bytes[j / 8] as int / (if j % 8 == 0 {
        128int
    } else if j % 8 == 1 {
        64int
    } else if j % 8 == 2 {
        32int
    } else if j % 8 == 3 {
        16int
    } else if j % 8 == 4 {
        8int
    } else if j % 8 == 5 {
        4int
    } else if j % 8 == 6 {
        2int
    } else {
        1int
    })) % 2 == 1 {
        0x31u8
    } else {
        0x30u8
    }
}

/// `bit`/`varbit` text form: one ASCII digit per bit.
pub open spec fn varbit_text(nbits: int, bytes: Seq<u8>) -> Seq<u8> {
    Seq::new(nbits as nat, |j: int| bit_char(bytes, j))
}

/// Decimal text of a number.
pub open spec fn dec_str(n: int) -> Seq<u8>
    decreases n,
{
    if n < 10 {
        seq![(0x30 + if n >= 0 {
            n
        } else {
            0
        }) as u8]
    } else {
        dec_str(n / 10) + seq![(0x30 + n % 10) as u8]
    }
}

/// Lower-case hex text of a number.
pub open spec fn hex_str(n: int) -> Seq<u8>
    decreases n,
{
    if n < 16 {
        seq![hex_digit(if n >= 0 {
            n
        } else {
            0
        })]
    } else {
        hex_str(n / 16) + seq![hex_digit(n % 16)]
    }
}

/// Dotted-decimal text of four address bytes.
pub open spec fn ipv4_text(a: Seq<u8>) -> Seq<u8> {
    dec_str(a[0] as int) + seq![0x2eu8] + dec_str(a[1] as int) + seq![0x2eu8] + dec_str(
        a[2] as int,
    ) + seq![0x2eu8] + dec_str(a[3] as int)
}

/// The eight sixteen-bit groups of an IPv6 address.
pub open spec fn ipv6_groups(a: Seq<u8>) -> Seq<int> {
    Seq::new(8, |i: int| crate::datatypes::utils::be_u16(a.skip(2 * i)))
}

/// The length of the zero-group run starting at position `i`.
pub open spec fn zero_run(g: Seq<int>, i: int) -> int
    decreases 8 - i,
{
    if i < 0 || i >= 8 {
        0
    } else if g[i] != 0 {
        0
    } else {
        1 + zero_run(g, i + 1)
    }
}

/// The leftmost start of a longest zero run at or after `i`, or `8`
/// when every group from `i` on is non-zero.
pub open spec fn best_zero_run(g: Seq<int>, i: int) -> int
    decreases 8 - i,
{
    if i >= 8 {
        8
    } else {
        let rest = best_zero_run(g, i + 1);
        if zero_run(g, i) >= zero_run(g, rest) {
            i
        } else {
            rest
        }
    }
}

/// A zero run fits inside the eight groups.
pub proof fn lemma_zero_run_bounds(g: Seq<int>, i: int)
    ensures
        0 <= zero_run(g, i),
        0 <= i <= 8 ==> i + zero_run(g, i) <= 8,
    decreases 8 - i,
{
    if 0 <= i < 8 {
        lemma_zero_run_bounds(g, i + 1);
    }
}

/// Groups `from .. to` as lower-case hex text joined with colons.
pub open spec fn hex_groups(g: Seq<int>, from: int, to: int) -> Seq<u8>
    decreases to - from,
{
    if to <= from {
        Seq::empty()
    } else if to == from + 1 {
        hex_str(g[from])
    } else {
        hex_groups(g, from, to - 1) + seq![0x3au8] + hex_str(g[to - 1])
    }
}

/// Whether the groups are an IPv4-mapped address (`::ffff:0:0/96`).
pub open spec fn v4_mapped(g: Seq<int>) -> bool {
    g[0] == 0 && g[1] == 0 && g[2] == 0 && g[3] == 0 && g[4] == 0 && g[5] == 0xffff
}

/// The canonical text of sixteen address bytes: the longest run of two
/// or more zero groups collapses to `::` (the leftmost run on ties),
/// and an IPv4-mapped address shows its last four bytes dotted decimal.
pub open spec fn ipv6_text(a: Seq<u8>) -> Seq<u8> {
    let g = ipv6_groups(a);
    if v4_mapped(g) {
        seq![0x3au8, 0x3au8, 0x66u8, 0x66u8, 0x66u8, 0x66u8, 0x3au8] + ipv4_text(a.skip(12))
    } else {
        let s = best_zero_run(g, 0);
        if s >= 8 || zero_run(g, s) <= 1 {
            hex_groups(g, 0, 8)
        } else {
            hex_groups(g, 0, s) + seq![0x3au8, 0x3au8] + hex_groups(g, s + zero_run(g, s), 8)
        }
    }
}

/// The address text of an inet wire value: the bare address, whatever
/// the netmask width.
pub open spec fn inet_text(b: Seq<u8>) -> Option<Seq<u8>> {
    if b.len() == 8 && b[0] == 2 && b[1] <= 32 && b[3] == 4 {
        Option::Some(ipv4_text(b.skip(4)))
    } else if b.len() == 20 && b[0] == 3 && b[1] <= 128 && b[3] == 16 {
        Option::Some(ipv6_text(b.skip(4)))
    } else {
        Option::None
    }
}

/// The meaning of each byte conversion.
pub open spec fn byte_conv_res(c: ByteConv, v: PgV) -> BRes {
    match c {
        ByteConv::RawPass => match v {
            PgV::Raw(b) => BRes::BVal(b),
            _ => BRes::BErr,
        },
        ByteConv::Utf8Pass => match v {
            PgV::Raw(b) => if crate::datatypes::utils::utf8_ok(b) {
                BRes::BVal(b)
            } else {
                BRes::BErr
            },
            _ => BRes::BErr,
        },
        ByteConv::JsonbStrip => match v {
            PgV::Raw(b) => if b.len() >= 1 && b[0] == 1 && crate::datatypes::utils::utf8_ok(
                b.skip(1),
            ) {
                BRes::BVal(b.skip(1))
            } else {
                BRes::BErr
            },
            _ => BRes::BErr,
        },
        ByteConv::MacText => match v {
            PgV::Raw(b) => if b.len() == 6 {
                BRes::BVal(mac_text(b))
            } else {
                BRes::BErr
            },
            _ => BRes::BErr,
        },
        ByteConv::VarbitText => match v {
            PgV::Raw(b) => if b.len() >= 4 && crate::datatypes::utils::be_i32(b) >= 0 && b.len()
                - 4 >= (crate::datatypes::utils::be_i32(b) + 7) / 8 {
                BRes::BVal(varbit_text(crate::datatypes::utils::be_i32(b), b.skip(4)))
            } else {
                BRes::BErr
            },
            _ => BRes::BErr,
        },
        ByteConv::NumericTextWire => match v {
            PgV::Raw(b) => match crate::datatypes::numeric::spec_parse_numeric(b) {
                Option::None => BRes::BErr,
                Option::Some(nv) => BRes::BVal(crate::datatypes::numeric::numeric_text(nv)),
            },
            _ => BRes::BErr,
        },
        ByteConv::InetText => match v {
            PgV::Raw(b) => match inet_text(b) {
                Option::None => BRes::BErr,
                Option::Some(t) => BRes::BVal(t),
            },
            _ => BRes::BErr,
        },
    }
}

/// Decimal text of a number, executable.
pub fn dec_str_exec(n: u32, out: &mut Vec<u8>)
    ensures
        final(out)@ =~= old(out)@ + dec_str(n as int),
    decreases n,
{
    if n < 10 {
        out.push(0x30 + (n as u8));
    } else {
        dec_str_exec(n / 10, out);
        out.push(0x30 + ((n % 10) as u8));
    }
}

/// Lower-case hex text of a number, executable.
pub fn hex_str_exec(n: u32, out: &mut Vec<u8>)
    requires
        n < 0x10000,
    ensures
        final(out)@ =~= old(out)@ + hex_str(n as int),
    decreases n,
{
    if n < 16 {
        out.push(hex_digit_exec(n as u8));
    } else {
        hex_str_exec(n / 16, out);
        out.push(hex_digit_exec((n % 16) as u8));
    }
}

/// Apply a byte conversion, appending the produced bytes to `buf`.
#[verifier::loop_isolation(false)]
#[verifier::rlimit(100)]
pub fn byte_conv_apply(c: &ByteConv, v: &PgValue, buf: &mut Vec<u8>) -> (r: Result<usize, String>)
    ensures
        match r {
            Result::Ok(n) => {
                &&& byte_conv_res(*c, v@) matches BRes::BVal(s) && final(buf)@ == old(buf)@ + s
                    && n as int == s.len()
            },
            Result::Err(_) => byte_conv_res(*c, v@) is BErr && final(buf)@ == old(buf)@,
        },
{
    match (c, v) {
        (ByteConv::RawPass, PgValue::Raw(b)) => {
            let n = b.len();
            let mut i: usize = 0;
            while i < n
                invariant
                    i <= n,
                    buf@ =~= old(buf)@ + b@.subrange(0, i as int),
                decreases n - i,
            {
                buf.push(b[i]);
                i = i + 1;
            }
            proof {
                assert(buf@ =~= old(buf)@ + b@);
            }
            Result::Ok(n)
        },
        (ByteConv::Utf8Pass, PgValue::Raw(b)) => {
            if !crate::datatypes::utils::is_utf8(b.as_slice()) {
                return Result::Err(err_string("text value is not valid UTF-8"));
            }
            let n = b.len();
            let mut i: usize = 0;
            while i < n
                invariant
                    i <= n,
                    buf@ =~= old(buf)@ + b@.subrange(0, i as int),
                decreases n - i,
            {
                buf.push(b[i]);
                i = i + 1;
            }
            proof {
                assert(buf@ =~= old(buf)@ + b@);
            }
            Result::Ok(n)
        },
        (ByteConv::JsonbStrip, PgValue::Raw(b)) => {
            match crate::datatypes::jsonb::parse_jsonb(b.as_slice()) {
                Result::Err(e) => Result::Err(e),
                Result::Ok(j) => {
                    let n = j.data.len();
                    let mut i: usize = 0;
                    while i < n
                        invariant
                            i <= n,
                            n == j.data@.len(),
                            buf@ =~= old(buf)@ + j.data@.subrange(0, i as int),
                        decreases n - i,
                    {
                        buf.push(j.data[i]);
                        i = i + 1;
                    }
                    proof {
                        assert(buf@ =~= old(buf)@ + j.data@);
                        assert(j.data@ == b@.skip(1));
                    }
                    Result::Ok(n)
                },
            }
        },
        (ByteConv::MacText, PgValue::Raw(b)) => {
            if b.len() == 6 {
                let mut i: usize = 0;
                while i < 6
                    invariant
                        i <= 6,
                        b@.len() == 6,
                        buf@ =~= old(buf)@ + mac_text(b@).subrange(0, if i == 0 {
                            0int
                        } else {
                            3 * i - 1
                        }),
                    decreases 6 - i,
                {
                    if i > 0 {
                        buf.push(0x3a);
                    }
                    let x = b[i];
                    buf.push(hex_digit_exec(x / 16));
                    buf.push(hex_digit_exec(x % 16));
                    proof {
                        assert(mac_text(b@)[3 * i as int] == hex_digit(b@[i as int] as int / 16));
                        assert(mac_text(b@)[3 * i as int + 1] == hex_digit(b@[i as int] as int % 16));
                        assert(i > 0 ==> mac_text(b@)[3 * i as int - 1] == 0x3au8);
                        assert(buf@ =~= old(buf)@ + mac_text(b@).subrange(0, 3 * (i + 1) - 1));
                    }
                    i = i + 1;
                }
                proof {
                    assert(buf@ =~= old(buf)@ + mac_text(b@));
                }
                Result::Ok(17)
            } else {
                Result::Err(err_string("unexpected width of a macaddr value"))
            }
        },
        (ByteConv::VarbitText, PgValue::Raw(b)) => {
            if b.len() < 4 {
                return Result::Err(err_string("malformed varbit value"));
            }
            let nbits = crate::datatypes::utils::read_i32(b.as_slice());
            if nbits < 0 {
                return Result::Err(err_string("malformed varbit value"));
            }
            let nbytes = (nbits as usize + 7) / 8;
            if b.len() - 4 < nbytes {
                return Result::Err(err_string("malformed varbit value"));
            }
            let n = nbits as usize;
            let mut j: usize = 0;
            while j < n
                invariant
                    j <= n,
                    n == nbits as int,
                    nbits >= 0,
                    b@.len() >= 4 + (nbits + 7) / 8,
                    buf@ =~= old(buf)@ + varbit_text(nbits as int, b@.skip(4)).subrange(
                        0,
                        j as int,
                    ),
                decreases n - j,
            {
                let byte = b[4 + j / 8];
                let shift: u8 = match j % 8 {
                    0 => 128,
                    1 => 64,
                    2 => 32,
                    3 => 16,
                    4 => 8,
                    5 => 4,
                    6 => 2,
                    _ => 1,
                };
                let c: u8 = if (byte / shift) % 2 == 1 {
                    0x31
                } else {
                    0x30
                };
                proof {
                    assert(b@.skip(4)[j as int / 8] == b@[4 + j as int / 8]);
                    assert(varbit_text(nbits as int, b@.skip(4))[j as int] == bit_char(
                        b@.skip(4),
                        j as int,
                    ));
                }
                buf.push(c);
                proof {
                    assert(buf@ =~= old(buf)@ + varbit_text(nbits as int, b@.skip(4)).subrange(
                        0,
                        j as int + 1,
                    ));
                }
                j = j + 1;
            }
            proof {
                assert(varbit_text(nbits as int, b@.skip(4)).subrange(0, nbits as int) =~= varbit_text(
                    nbits as int,
                    b@.skip(4),
                ));
            }
            Result::Ok(n)
        },
        (ByteConv::NumericTextWire, PgValue::Raw(b)) => numeric_text_apply(b, buf),
        (ByteConv::InetText, PgValue::Raw(b)) => inet_apply(b, buf),
        _ => Result::Err(err_string("value does not fit the planned column")),
    }
}


/// Append the decimal text of a numeric wire value.
#[verifier::loop_isolation(false)]
pub(crate) fn numeric_text_apply(b: &Vec<u8>, buf: &mut Vec<u8>) -> (r: Result<usize, String>)
    ensures
        match r {
            Result::Ok(n) => {
                &&& crate::datatypes::numeric::spec_parse_numeric(b@) matches Option::Some(nv)
                    && final(buf)@ == old(buf)@ + crate::datatypes::numeric::numeric_text(nv) && n
                    as int == crate::datatypes::numeric::numeric_text(nv).len()
            },
            Result::Err(_) => crate::datatypes::numeric::spec_parse_numeric(b@) is None
                && final(buf)@ == old(buf)@,
        },
{
    match crate::datatypes::numeric::parse_numeric(b.as_slice()) {
        Result::Err(e) => Result::Err(e),
        Result::Ok(nv) => {
            let txt = crate::datatypes::numeric::numeric_to_text(&nv);
            let n = txt.len();
            let mut i: usize = 0;
            while i < n
                invariant
                    i <= n,
                    n == txt@.len(),
                    buf@ =~= old(buf)@ + txt@.subrange(0, i as int),
                decreases n - i,
            {
                buf.push(txt[i]);
                i = i + 1;
            }
            proof {
                assert(buf@ =~= old(buf)@ + txt@);
            }
            Result::Ok(n)
        },
    }
}

/// Append the address text of an inet wire value.
#[verifier::rlimit(100)]
fn inet_apply(b: &Vec<u8>, buf: &mut Vec<u8>) -> (r: Result<usize, String>)
    ensures
        match r {
            Result::Ok(n) => {
                &&& inet_text(b@) matches Option::Some(t) && final(buf)@ == old(buf)@ + t && n
                    as int == t.len()
            },
            Result::Err(_) => inet_text(b@) is None && final(buf)@ == old(buf)@,
        },
{
    let n = b.len();
    if n == 8 && b[0] == 2 && b[1] <= 32 && b[3] == 4 {
        let ghost mid0 = buf@;
        let pre_len = buf.len();
        dec_str_exec(b[4] as u32, buf);
        buf.push(0x2e);
        dec_str_exec(b[5] as u32, buf);
        buf.push(0x2e);
        dec_str_exec(b[6] as u32, buf);
        buf.push(0x2e);
        dec_str_exec(b[7] as u32, buf);
        proof {
            assert(b@.skip(4)[0] == b@[4]);
            assert(b@.skip(4)[1] == b@[5]);
            assert(b@.skip(4)[2] == b@[6]);
            assert(b@.skip(4)[3] == b@[7]);
            assert(buf@ =~= mid0 + ipv4_text(b@.skip(4)));
        }
        let written = buf.len() - pre_len;
        Result::Ok(written)
    } else if n == 20 && b[0] == 3 && b[1] <= 128 && b[3] == 16 {
        let ghost mid0 = buf@;
        let pre_len = buf.len();
        let ghost a = b@.skip(4);
        let ghost g = ipv6_groups(a);
        let mut gs: Vec<u16> = Vec::new();
        let mut k: usize = 0;
        while k < 8
            invariant
                k <= 8,
                n == 20,
                b@.len() == 20,
                gs@.len() == k,
                forall|j: int|
                    0 <= j < k ==> #[trigger] gs@[j] as int == crate::datatypes::utils::be_u16(
                        b@.skip(4 + 2 * j),
                    ),
            decreases 8 - k,
        {
            let x = crate::datatypes::utils::read_u16_at(b.as_slice(), 4 + 2 * k);
            gs.push(x);
            k = k + 1;
        }
        proof {
            assert forall|j: int| 0 <= j < 8 implies g[j] == gs@[j] as int by {
                assert(a.skip(2 * j) =~= b@.skip(4 + 2 * j));
            }
        }
        if gs[0] == 0 && gs[1] == 0 && gs[2] == 0 && gs[3] == 0 && gs[4] == 0 && gs[5] == 0xffff {
            buf.push(0x3a);
            buf.push(0x3a);
            buf.push(0x66);
            buf.push(0x66);
            buf.push(0x66);
            buf.push(0x66);
            buf.push(0x3a);
            let ghost mid1 = buf@;
            dec_str_exec(b[16] as u32, buf);
            buf.push(0x2e);
            dec_str_exec(b[17] as u32, buf);
            buf.push(0x2e);
            dec_str_exec(b[18] as u32, buf);
            buf.push(0x2e);
            dec_str_exec(b[19] as u32, buf);
            proof {
                assert(v4_mapped(g)) by {
                    assert(g[0] == gs@[0] as int);
                    assert(g[1] == gs@[1] as int);
                    assert(g[2] == gs@[2] as int);
                    assert(g[3] == gs@[3] as int);
                    assert(g[4] == gs@[4] as int);
                    assert(g[5] == gs@[5] as int);
                }
                assert(a.skip(12) =~= b@.skip(16));
                assert(b@.skip(16)[0] == b@[16]);
                assert(b@.skip(16)[1] == b@[17]);
                assert(b@.skip(16)[2] == b@[18]);
                assert(b@.skip(16)[3] == b@[19]);
                assert(mid1 =~= mid0 + seq![0x3au8, 0x3au8, 0x66u8, 0x66u8, 0x66u8, 0x66u8, 0x3au8]);
                assert(buf@ =~= mid1 + ipv4_text(a.skip(12)));
                assert(buf@ =~= mid0 + ipv6_text(a));
            }
            let written = buf.len() - pre_len;
            Result::Ok(written)
        } else {
            let mut best: usize = 8;
            let mut best_run: usize = 0;
            let mut next_run: usize = 0;
            let mut i: usize = 8;
            while i > 0
                invariant
                    i <= 8,
                    gs@.len() == 8,
                    forall|j: int| 0 <= j < 8 ==> g[j] == #[trigger] gs@[j] as int,
                    next_run as int == zero_run(g, i as int),
                    best as int == best_zero_run(g, i as int),
                    best_run as int == zero_run(g, best as int),
                    best <= 8,
                decreases i,
            {
                let idx = i - 1;
                proof {
                    lemma_zero_run_bounds(g, idx as int);
                    lemma_zero_run_bounds(g, i as int);
                }
                let r: usize = if gs[idx] != 0 {
                    0
                } else {
                    1 + next_run
                };
                proof {
                    assert(r as int == zero_run(g, idx as int));
                }
                if r >= best_run {
                    best = idx;
                    best_run = r;
                }
                next_run = r;
                i = idx;
            }
            proof {
                assert(best as int == best_zero_run(g, 0));
                lemma_zero_run_bounds(g, best as int);
            }
            let ghost mid1 = buf@;
            if best >= 8 || best_run <= 1 {
                let mut k2: usize = 0;
                while k2 < 8
                    invariant
                        k2 <= 8,
                        gs@.len() == 8,
                        forall|j: int| 0 <= j < 8 ==> g[j] == #[trigger] gs@[j] as int,
                        buf@ =~= mid1 + hex_groups(g, 0, k2 as int),
                    decreases 8 - k2,
                {
                    if k2 > 0 {
                        buf.push(0x3a);
                    }
                    hex_str_exec(gs[k2] as u32, buf);
                    proof {
                        assert(buf@ =~= mid1 + hex_groups(g, 0, k2 as int + 1));
                    }
                    k2 = k2 + 1;
                }
                proof {
                    assert(buf@ =~= mid0 + ipv6_text(a));
                }
                let written = buf.len() - pre_len;
                Result::Ok(written)
            } else {
                let mut k2: usize = 0;
                while k2 < best
                    invariant
                        k2 <= best,
                        best < 8,
                        gs@.len() == 8,
                        forall|j: int| 0 <= j < 8 ==> g[j] == #[trigger] gs@[j] as int,
                        buf@ =~= mid1 + hex_groups(g, 0, k2 as int),
                    decreases best - k2,
                {
                    if k2 > 0 {
                        buf.push(0x3a);
                    }
                    hex_str_exec(gs[k2] as u32, buf);
                    proof {
                        assert(buf@ =~= mid1 + hex_groups(g, 0, k2 as int + 1));
                    }
                    k2 = k2 + 1;
                }
                buf.push(0x3a);
                buf.push(0x3a);
                let ghost mid2 = buf@;
                let start = best + best_run;
                let mut k3: usize = start;
                while k3 < 8
                    invariant
                        start <= k3 <= 8,
                        start == best + best_run,
                        gs@.len() == 8,
                        forall|j: int| 0 <= j < 8 ==> g[j] == #[trigger] gs@[j] as int,
                        buf@ =~= mid2 + hex_groups(g, start as int, k3 as int),
                    decreases 8 - k3,
                {
                    if k3 > start {
                        buf.push(0x3a);
                    }
                    hex_str_exec(gs[k3] as u32, buf);
                    proof {
                        assert(buf@ =~= mid2 + hex_groups(g, start as int, k3 as int + 1));
                    }
                    k3 = k3 + 1;
                }
                proof {
                    assert(mid2 =~= mid1 + hex_groups(g, 0, best as int) + seq![0x3au8, 0x3au8]);
                    assert(buf@ =~= mid0 + ipv6_text(a));
                }
                let written = buf.len() - pre_len;
                Result::Ok(written)
            }
        }
    } else {
        Result::Err(err_string("unsupported inet value"))
    }
}

/// Lower-case hex digit of a value below sixteen.
pub fn hex_digit_exec(d: u8) -> (r: u8)
    requires
        d < 16,
    ensures
        r == hex_digit(d as int),
{
    if d < 10 {
        0x30 + d
    } else {
        0x61 + (d - 10)
    }
}

/// The byte string of value `i` inside the shared buffer.
pub open spec fn slice_at(buffer: Seq<u8>, offsets: Seq<usize>, i: int) -> Seq<u8> {
    buffer.subrange(
        offsets[i] as int,
        if i + 1 < offsets.len() {
            offsets[i + 1] as int
        } else {
            buffer.len() as int
        },
    )
}

/// Buffers variable-length byte values in one contiguous buffer with an
/// offsets table; one leaf of the appender tree.
pub struct ByteArrayColumnAppender {
    max_dl: i16,
    max_rl: i16,
    byte_buffer: Vec<u8>,
    offsets: Vec<usize>,
    dls: Vec<i16>,
    rls: Vec<i16>,
    repetition_index: LevelIndexState,
    conversion: ByteConv,
    history: Ghost<Seq<Rec>>,
    flushed: Ghost<int>,
}

impl ByteArrayColumnAppender {
    /// The column as the model sees it.
    pub closed spec fn leaf(&self) -> LeafModel {
        LeafModel {
            max_dl: self.max_dl as int,
            max_rl: self.max_rl as int,
            history: self.history@,
            flushed: self.flushed@,
            mark: self.repetition_index@,
        }
    }

    /// The conversion this column applies.
    pub closed spec fn conv(&self) -> ByteConv {
        self.conversion
    }

    pub closed spec fn wf(&self) -> bool {
        &&& self.leaf().ok()
        &&& self.repetition_index.wf()
        &&& (self.history@.len() == 0 ==> forall|i: int|
            0 <= i < self.repetition_index@.len() ==> self.repetition_index@[i] == usize::MAX)
        &&& self.offsets@.len() == vals_of(self.leaf().pending()).len()
        &&& (forall|i: int|
            0 <= i < self.offsets@.len() ==> #[trigger] self.offsets@[i] <= self.byte_buffer@.len())
        &&& (forall|i: int|
            0 <= i && i + 1 < self.offsets@.len() ==> #[trigger] self.offsets@[i] <= self.offsets@[
                i + 1])
        &&& (forall|i: int|
            0 <= i < self.offsets@.len() ==> #[trigger] vals_of(self.leaf().pending())[i]
                == PqVal::Bytes(slice_at(self.byte_buffer@, self.offsets@, i)))
        &&& (self.offsets@.len() == 0 ==> self.byte_buffer@.len() == 0)
        &&& (if self.max_dl > 0 {
            &&& self.dls@.len() == self.leaf().pending().len()
            &&& forall|i: int|
                0 <= i < self.dls@.len() ==> #[trigger] self.dls@[i] as int == self.leaf().pending()[i].dl
        } else {
            self.dls@.len() == 0
        })
        &&& (if self.max_rl > 0 {
            &&& self.rls@.len() == self.leaf().pending().len()
            &&& forall|i: int|
                0 <= i < self.rls@.len() ==> #[trigger] self.rls@[i] as int == self.leaf().pending()[i].rl
        } else {
            self.rls@.len() == 0
        })
    }

    /// A well-formed appender has a well-formed leaf model.
    pub proof fn lemma_wf_leaf(&self)
        requires
            self.wf(),
        ensures
            self.leaf().ok(),
    {
    }

    /// A fresh byte-array appender.
    pub fn new(max_dl: i16, max_rl: i16, f_copy: ByteConv) -> (r: Self)
        requires
            0 <= max_dl,
            0 <= max_rl < 0x7fff,
        ensures
            r.wf(),
            r.conv() == f_copy,
            r.leaf().max_dl == max_dl,
            r.leaf().max_rl == max_rl,
            r.leaf().history =~= Seq::<Rec>::empty(),
            r.leaf().flushed == 0,
            crate::appenders::records::fresh_leaf(r.leaf()),
    {
        let r = ByteArrayColumnAppender {
            max_dl,
            max_rl,
            byte_buffer: Vec::new(),
            offsets: Vec::new(),
            dls: Vec::new(),
            rls: Vec::new(),
            repetition_index: LevelIndexState::new(max_rl),
            conversion: f_copy,
            history: Ghost(Seq::empty()),
            flushed: Ghost(0),
        };
        proof {
            assert(r.leaf().pending() =~= Seq::<Rec>::empty());
        }
        r
    }

    pub fn max_dl(&self) -> (r: i16)
        ensures
            r as int == self.leaf().max_dl,
    {
        self.max_dl
    }

    pub fn max_rl(&self) -> (r: i16)
        ensures
            r as int == self.leaf().max_rl,
    {
        self.max_rl
    }

    /// Convert one value and buffer the resulting record.
    pub fn append(self, repetition_index: &LevelIndexList, value: &PgValue) -> (r: (
        Self,
        Result<usize, String>,
    ))
        requires
            self.wf(),
            repetition_index.wf(),
            repetition_index@.len() == self.leaf().max_rl + 1,
        ensures
            r.0.wf(),
            r.0.conv() == self.conv(),
            r.1 is Ok <==> byte_conv_res(self.conv(), value@) is BVal,
            byte_conv_res(self.conv(), value@) is BErr ==> r.0.leaf() == self.leaf(),
            (byte_conv_res(self.conv(), value@) matches BRes::BVal(s) ==> {
                &&& appended1(
                    self.leaf(),
                    r.0.leaf(),
                    repetition_index@,
                    self.leaf().max_dl,
                    Option::Some(PqVal::Bytes(s)),
                )
                &&& r.1 == Result::<usize, String>::Ok(
                    (crate::appenders::generic::sat_add(
                        crate::appenders::generic::sat_add(
                            s.len() as int,
                            if self.leaf().max_dl > 0 {
                                2int
                            } else {
                                0int
                            },
                        ),
                        if self.leaf().max_rl > 0 {
                            2int
                        } else {
                            0int
                        },
                    )) as usize,
                )
            }),
    {
        let mut s = self;
        let ghost pre = s.leaf();
        let ghost pre_buffer = s.byte_buffer@;
        let ghost pre_offsets = s.offsets@;
        let index = s.byte_buffer.len();
        let cr = byte_conv_apply(&s.conversion, value, &mut s.byte_buffer);
        match cr {
            Result::Err(e) => (s, Result::Err(e)),
            Result::Ok(len) => {
                proof {
                    assert(byte_conv_res(s.conversion, value@) is BVal);
                    match byte_conv_res(s.conversion, value@) {
                        BRes::BVal(sv) => {
                            assert(s.byte_buffer@ == pre_buffer + sv);
                        },
                        _ => {},
                    }
                }
                let ghost bytes_v = s.byte_buffer@.skip(index as int);
                s.offsets.push(index);
                if s.max_dl > 0 {
                    s.dls.push(s.max_dl);
                }
                let rl = s.repetition_index.copy_and_diff(repetition_index);
                if s.max_rl > 0 {
                    s.rls.push(rl);
                }
                let ghost rec = Rec {
                    dl: s.max_dl as int,
                    rl: rl as int,
                    val: Option::Some(PqVal::Bytes(bytes_v)),
                };
                proof {
                    s.history@ = pre.history.push(rec);
                    assert(s.conversion == self.conversion);
                    assert(s.byte_buffer@ == pre_buffer + bytes_v);
                    lemma_skip_push(pre.history, rec, pre.flushed);
                    lemma_vals_push(pre.pending(), rec);
                    assert(s.leaf().pending() =~= pre.pending().push(rec));
                    if pre.history.len() == 0 {
                        crate::level_index::lemma_first_diff_head(repetition_index@, pre.mark);
                    }
                    assert(bytes_v =~= s.byte_buffer@.subrange(
                        index as int,
                        s.byte_buffer@.len() as int,
                    ));
                    assert(index == pre_buffer.len());
                    let cres = byte_conv_res(s.conversion, value@);
                    match cres {
                        BRes::BVal(sv) => {
                            assert(s.byte_buffer@ == pre_buffer + sv);
                            assert(bytes_v =~= sv);
                        },
                        _ => {},
                    }
                    assert(pre_offsets =~= self.offsets@);
                    assert(pre_buffer =~= self.byte_buffer@);
                    assert(s.offsets@ =~= pre_offsets.push(index));
                    assert forall|i: int| 0 <= i && i + 1 < s.offsets@.len() implies (
                    #[trigger] s.offsets@[i]) <= s.offsets@[i + 1] by {
                        if i + 1 < pre_offsets.len() {
                            assert(self.offsets@[i] <= self.offsets@[i + 1]);
                        } else {
                            assert(self.offsets@[i] <= self.byte_buffer@.len());
                        }
                    }
                    assert forall|i: int| 0 <= i < pre_offsets.len() implies slice_at(
                        s.byte_buffer@,
                        s.offsets@,
                        i,
                    ) =~= slice_at(pre_buffer, pre_offsets, i) by {
                        assert(s.offsets@[i] == pre_offsets[i]);
                        if i + 1 < pre_offsets.len() {
                            assert(s.offsets@[i + 1] == pre_offsets[i + 1]);
                        } else {
                            assert(s.offsets@[i + 1] == index);
                        }
                    }
                    assert(vals_of(s.leaf().pending()) =~= vals_of(pre.pending()).push(
                        PqVal::Bytes(bytes_v),
                    ));
                    assert(slice_at(s.byte_buffer@, s.offsets@, pre_offsets.len() as int)
                        =~= bytes_v);
                }
                let sz1 = crate::appenders::generic::usize_sat_add(
                    len,
                    if s.max_dl > 0 {
                        2
                    } else {
                        0
                    },
                );
                let sz2 = crate::appenders::generic::usize_sat_add(
                    sz1,
                    if s.max_rl > 0 {
                        2
                    } else {
                        0
                    },
                );
                (s, Result::Ok(sz2))
            },
        }
    }

    /// Buffer a NULL marker at the given definition level.
    pub fn write_null(self, repetition_index: &LevelIndexList, level: i16) -> (r: (Self, usize))
        requires
            self.wf(),
            repetition_index.wf(),
            repetition_index@.len() == self.leaf().max_rl + 1,
            0 <= level < self.leaf().max_dl,
        ensures
            r.0.wf(),
            r.0.conv() == self.conv(),
            appended1(self.leaf(), r.0.leaf(), repetition_index@, level as int, Option::None),
            r.1 as int == if self.leaf().max_rl > 0 {
                4int
            } else {
                2int
            },
    {
        let mut s = self;
        let ghost pre = s.leaf();
        let ghost pre_buffer = s.byte_buffer@;
        let ghost pre_offsets = s.offsets@;
        s.dls.push(level);
        let rl = s.repetition_index.copy_and_diff(repetition_index);
        if s.max_rl > 0 {
            s.rls.push(rl);
        }
        let ghost rec = Rec { dl: level as int, rl: rl as int, val: Option::None };
        proof {
            s.history@ = pre.history.push(rec);
            lemma_skip_push(pre.history, rec, pre.flushed);
            lemma_vals_push(pre.pending(), rec);
            assert(s.leaf().pending() =~= pre.pending().push(rec));
            assert(vals_of(s.leaf().pending()) =~= vals_of(pre.pending()));
            if pre.history.len() == 0 {
                crate::level_index::lemma_first_diff_head(repetition_index@, pre.mark);
            }
        }
        let sz: usize = if s.max_rl > 0 {
            4
        } else {
            2
        };
        (s, sz)
    }

    /// Cut the shared buffer back into one byte string per value and hand
    /// everything out as a column chunk.
    pub fn write_column(self) -> (r: (Self, ColumnChunkData))
        requires
            self.wf(),
        ensures
            r.0.wf(),
            r.0.conv() == self.conv(),
            r.0.leaf().max_dl == self.leaf().max_dl,
            r.0.leaf().max_rl == self.leaf().max_rl,
            r.0.leaf().history == self.leaf().history,
            r.0.leaf().mark == self.leaf().mark,
            r.0.leaf().flushed == self.leaf().history.len(),
            chunk_matches(r.1, self.leaf().pending(), self.leaf().max_dl, self.leaf().max_rl),
    {
        let mut s = self;
        let n = s.offsets.len();
        let mut column: Vec<Vec<u8>> = Vec::new();
        let mut i: usize = 0;
        let buffer_len = s.byte_buffer.len();
        while i < n
            invariant
                i <= n,
                n == s.offsets@.len(),
                buffer_len == s.byte_buffer@.len(),
                s == self,
                self.wf(),
                column@.len() == i,
                forall|j: int|
                    0 <= j < i ==> #[trigger] column@[j]@ == slice_at(
                        s.byte_buffer@,
                        s.offsets@,
                        j,
                    ),
            decreases n - i,
        {
            let start = s.offsets[i];
            let end = if i + 1 < n {
                s.offsets[i + 1]
            } else {
                buffer_len
            };
            proof {
                if i + 1 < n {
                    assert(self.offsets@[i as int] <= self.offsets@[i as int + 1]);
                }
            }
            let piece = copy_range(s.byte_buffer.as_slice(), start, end - start);
            column.push(piece);
            i = i + 1;
        }
        let vals = ChunkValues::Bytes(column);
        s.byte_buffer = Vec::new();
        s.offsets = Vec::new();
        let dls_out: Option<Vec<i16>> = if s.max_dl > 0 {
            let d = s.dls;
            s.dls = Vec::new();
            Option::Some(d)
        } else {
            Option::None
        };
        let rls_out: Option<Vec<i16>> = if s.max_rl > 0 {
            let x = s.rls;
            s.rls = Vec::new();
            Option::Some(x)
        } else {
            Option::None
        };
        proof {
            s.flushed@ = s.history@.len() as int;
            assert(s.leaf().pending() =~= Seq::<Rec>::empty());
            assert(vals@ =~= vals_of(self.leaf().pending()));
        }
        (s, ColumnChunkData { values: vals, dls: dls_out, rls: rls_out })
    }
}

} // verus!
