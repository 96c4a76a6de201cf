//! The primitive column appender: converts one decoded PostgreSQL value
//! per record into a typed Parquet buffer, together with its definition
//! and repetition levels.

use vstd::prelude::*;

use crate::appenders::records::{
    appended1, chunk_matches, lemma_skip_push, lemma_vals_push, rec_ok, vals_of, ChunkValues,
    ColumnChunkData, LeafModel, PgV, PgValue, PqVal, Rec,
};
use crate::datatypes::utils::{
    be_i16, be_i32, be_i64, be_u16, be_u32, be_u64, read_i16_at, read_i32_at, read_i64_at,
    read_u16_at, read_u32_at, read_u64_at,
};
use crate::level_index::{diff_level, LevelIndexList, LevelIndexState};

verus! {

/// The shape of the values a primitive column buffers.
#[derive(PartialEq, Eq, Structural, Clone, Copy, Debug)]
pub enum ChunkKind {
    Bool,
    I32,
    I64,
    F32,
    F64,
    F32Dec,
    F64Dec,
    /// Variable byte strings produced by the crate itself, such as the
    /// two's-complement form of wide decimals.
    DecBytes,
}

/// A converted primitive value ready for buffering.
pub enum PrimVal {
    B(bool),
    I32(i32),
    I64(i64),
    F32(u32),
    F64(u64),
    F32Dec(Vec<u8>),
    F64Dec(Vec<u8>),
    Bytes(Vec<u8>),
}

impl PrimVal {
    pub open spec fn view(&self) -> PqVal {
        match self {
            PrimVal::B(x) => PqVal::B(*x),
            PrimVal::I32(x) => PqVal::I32(*x),
            PrimVal::I64(x) => PqVal::I64(*x),
            PrimVal::F32(x) => PqVal::F32(*x),
            PrimVal::F64(x) => PqVal::F64(*x),
            PrimVal::F32Dec(x) => PqVal::F32Dec(x@),
            PrimVal::F64Dec(x) => PqVal::F64Dec(x@),
            PrimVal::Bytes(x) => PqVal::Bytes(x@),
        }
    }
}

/// The kind a model value belongs to.
pub open spec fn pq_kind(v: PqVal) -> ChunkKind {
    match v {
        PqVal::B(_) => ChunkKind::Bool,
        PqVal::I32(_) => ChunkKind::I32,
        PqVal::I64(_) => ChunkKind::I64,
        PqVal::F32(_) => ChunkKind::F32,
        PqVal::F64(_) => ChunkKind::F64,
        PqVal::F32Dec(_) => ChunkKind::F32Dec,
        PqVal::F64Dec(_) => ChunkKind::F64Dec,
        PqVal::Bytes(_) => ChunkKind::DecBytes,
        PqVal::Fixed(_) => ChunkKind::I32,
    }
}

/// The approximate buffered size of a value, in bytes.
pub open spec fn pq_size(v: PqVal) -> int {
    match v {
        PqVal::B(_) => 1,
        PqVal::I32(_) => 4,
        PqVal::I64(_) => 8,
        PqVal::F32(_) => 4,
        PqVal::F64(_) => 8,
        PqVal::F32Dec(s) => s.len() as int,
        PqVal::F64Dec(s) => s.len() as int,
        PqVal::Bytes(s) => s.len() as int,
        PqVal::Fixed(s) => s.len() as int,
    }
}

/// Addition clipped at the machine word, the way buffered byte counts are
/// accumulated.
pub open spec fn sat_add(a: int, b: int) -> int {
    if a + b > usize::MAX {
        usize::MAX as int
    } else {
        a + b
    }
}

/// Saturating add on machine words.
pub fn usize_sat_add(a: usize, b: usize) -> (r: usize)
    ensures
        r as int == sat_add(a as int, b as int),
{
    if a <= usize::MAX - b {
        a + b
    } else {
        usize::MAX
    }
}

/// The typed value buffer of a primitive column.
pub enum ColumnBuffer {
    Bool(Vec<bool>),
    I32(Vec<i32>),
    I64(Vec<i64>),
    F32(Vec<u32>),
    F64(Vec<u64>),
    F32Dec(Vec<Vec<u8>>),
    F64Dec(Vec<Vec<u8>>),
    DecBytes(Vec<Vec<u8>>),
}

impl ColumnBuffer {
    pub open spec fn view(&self) -> Seq<PqVal> {
        match self {
            ColumnBuffer::Bool(v) => v@.map(|i: int, x: bool| PqVal::B(x)),
            ColumnBuffer::I32(v) => v@.map(|i: int, x: i32| PqVal::I32(x)),
            ColumnBuffer::I64(v) => v@.map(|i: int, x: i64| PqVal::I64(x)),
            ColumnBuffer::F32(v) => v@.map(|i: int, x: u32| PqVal::F32(x)),
            ColumnBuffer::F64(v) => v@.map(|i: int, x: u64| PqVal::F64(x)),
            ColumnBuffer::F32Dec(v) => v@.map(|i: int, x: Vec<u8>| PqVal::F32Dec(x@)),
            ColumnBuffer::F64Dec(v) => v@.map(|i: int, x: Vec<u8>| PqVal::F64Dec(x@)),
            ColumnBuffer::DecBytes(v) => v@.map(|i: int, x: Vec<u8>| PqVal::Bytes(x@)),
        }
    }

    pub open spec fn kind(&self) -> ChunkKind {
        match self {
            ColumnBuffer::Bool(_) => ChunkKind::Bool,
            ColumnBuffer::I32(_) => ChunkKind::I32,
            ColumnBuffer::I64(_) => ChunkKind::I64,
            ColumnBuffer::F32(_) => ChunkKind::F32,
            ColumnBuffer::F64(_) => ChunkKind::F64,
            ColumnBuffer::F32Dec(_) => ChunkKind::F32Dec,
            ColumnBuffer::F64Dec(_) => ChunkKind::F64Dec,
            ColumnBuffer::DecBytes(_) => ChunkKind::DecBytes,
        }
    }

    /// A fresh empty buffer of the given kind.
    pub fn new(kind: ChunkKind) -> (r: Self)
        ensures
            r@ =~= Seq::<PqVal>::empty(),
            r.kind() == kind,
    {
        match kind {
            ChunkKind::Bool => ColumnBuffer::Bool(Vec::new()),
            ChunkKind::I32 => ColumnBuffer::I32(Vec::new()),
            ChunkKind::I64 => ColumnBuffer::I64(Vec::new()),
            ChunkKind::F32 => ColumnBuffer::F32(Vec::new()),
            ChunkKind::F64 => ColumnBuffer::F64(Vec::new()),
            ChunkKind::F32Dec => ColumnBuffer::F32Dec(Vec::new()),
            ChunkKind::F64Dec => ColumnBuffer::F64Dec(Vec::new()),
            ChunkKind::DecBytes => ColumnBuffer::DecBytes(Vec::new()),
        }
    }

    /// Push a value whose kind matches the buffer.
    pub fn push(self, v: PrimVal) -> (r: Self)
        requires
            pq_kind(v@) == self.kind(),
        ensures
            r@ =~= self@.push(v@),
            r.kind() == self.kind(),
    {
        match (self, v) {
            (ColumnBuffer::Bool(mut b), PrimVal::B(x)) => {
                b.push(x);
                ColumnBuffer::Bool(b)
            },
            (ColumnBuffer::I32(mut b), PrimVal::I32(x)) => {
                b.push(x);
                ColumnBuffer::I32(b)
            },
            (ColumnBuffer::I64(mut b), PrimVal::I64(x)) => {
                b.push(x);
                ColumnBuffer::I64(b)
            },
            (ColumnBuffer::F32(mut b), PrimVal::F32(x)) => {
                b.push(x);
                ColumnBuffer::F32(b)
            },
            (ColumnBuffer::F64(mut b), PrimVal::F64(x)) => {
                b.push(x);
                ColumnBuffer::F64(b)
            },
            (ColumnBuffer::F32Dec(mut b), PrimVal::F32Dec(x)) => {
                b.push(x);
                ColumnBuffer::F32Dec(b)
            },
            (ColumnBuffer::F64Dec(mut b), PrimVal::F64Dec(x)) => {
                b.push(x);
                ColumnBuffer::F64Dec(b)
            },
            (ColumnBuffer::DecBytes(mut b), PrimVal::Bytes(x)) => {
                b.push(x);
                ColumnBuffer::DecBytes(b)
            },
            (b, _) => b,
        }
    }

    /// Drain the buffer into chunk values, leaving it empty.
    pub fn take(self) -> (r: (Self, ChunkValues))
        ensures
            r.0@ =~= Seq::<PqVal>::empty(),
            r.0.kind() == self.kind(),
            r.1@ == self@,
    {
        match self {
            ColumnBuffer::Bool(b) => (ColumnBuffer::Bool(Vec::new()), ChunkValues::Bool(b)),
            ColumnBuffer::I32(b) => (ColumnBuffer::I32(Vec::new()), ChunkValues::I32(b)),
            ColumnBuffer::I64(b) => (ColumnBuffer::I64(Vec::new()), ChunkValues::I64(b)),
            ColumnBuffer::F32(b) => (ColumnBuffer::F32(Vec::new()), ChunkValues::F32Bits(b)),
            ColumnBuffer::F64(b) => (ColumnBuffer::F64(Vec::new()), ChunkValues::F64Bits(b)),
            ColumnBuffer::F32Dec(b) => (ColumnBuffer::F32Dec(Vec::new()), ChunkValues::F32Dec(b)),
            ColumnBuffer::F64Dec(b) => (ColumnBuffer::F64Dec(Vec::new()), ChunkValues::F64Dec(b)),
            ColumnBuffer::DecBytes(b) => (
                ColumnBuffer::DecBytes(Vec::new()),
                ChunkValues::Bytes(b),
            ),
        }
    }
}

/// The pure conversion a primitive column applies to each incoming value:
/// from the decoded PostgreSQL value to the buffered Parquet value.
pub enum Conversion {
    /// One wire byte, zero or one.
    BoolWire,
    /// `int2`, widened to a 32-bit column.
    I16Wire,
    I32Wire,
    I64Wire,
    /// `oid`: four unsigned bytes stored in a 32-bit column.
    U32Wire,
    /// `"char"`: one byte stored in a 32-bit column.
    CharWire,
    /// `float4` bit pattern.
    F32Wire,
    /// `float8` bit pattern.
    F64Wire,
    /// `timestamp`/`timestamptz`: microseconds since 2000-01-01, shifted
    /// to the Unix epoch.
    TimestampWire,
    /// `date`: days since 2000-01-01, shifted to the Unix epoch.
    DateWire,
    /// `time`: microseconds since midnight.
    TimeWire,
    /// `money`: a 64-bit amount in cents.
    MoneyWire,
    /// `macaddr` stored in the low six bytes of a 64-bit integer.
    MacInt64Wire,
    /// Enum label mapped to its one-based position among the labels.
    EnumIntWire(Vec<Vec<u8>>),
    /// An already decoded boolean, as a range decoder hands it over.
    BoolVal,
    /// An already decoded 32-bit integer, as array sidecars hand it over.
    I32Val,
    /// An already decoded float bit pattern, as vector elements arrive.
    F32BitsVal,
    /// The one-based position of a sparse-vector entry.
    PairKeyVal,
    /// The float bit pattern of a sparse-vector entry.
    PairValueVal,
    /// `interval`, months field of the struct form.
    IntervalMonthsWire,
    /// `interval`, days field of the struct form.
    IntervalDaysWire,
    /// `interval`, microseconds field of the struct form.
    IntervalMicrosWire,
    /// `numeric` rendered as decimal text for a 64-bit float column.
    NumericF64TextWire,
    /// `numeric` rendered as decimal text for a 32-bit float column.
    NumericF32TextWire,
    /// A half-precision float element widened to a 32-bit float.
    F16ToF32Wire,
    /// `numeric` scaled into a 32-bit DECIMAL of the given precision and
    /// scale; values that do not fit become NULL with a warning.
    DecimalI32Wire(u32, i32),
    /// `numeric` scaled into a 64-bit DECIMAL.
    DecimalI64Wire(u32, i32),
    /// `numeric` scaled into a two's-complement byte-array DECIMAL.
    DecimalBytesWire(u32, i32),
}

/// What a conversion yields on one input.
pub ghost enum CRes {
    /// The input cannot be converted; the row fails.
    CErr,
    /// The value cannot be represented and is softly replaced by NULL,
    /// with a one-time warning.
    CSoft,
    /// The value has no representation, such as not-a-number, and
    /// becomes a plain NULL.
    CNull,
    CVal(PqVal),
}

/// View of a label table.
pub open spec fn labels_view(v: Seq<Vec<u8>>) -> Seq<Seq<u8>> {
    v.map(|i: int, x: Vec<u8>| x@)
}

/// First position of `b` among `labels`, or `-1`.
pub open spec fn enum_index(labels: Seq<Seq<u8>>, b: Seq<u8>) -> int
    decreases labels.len(),
{
    if labels.len() == 0 {
        -1
    } else if labels[0] == b {
        0
    } else {
        let r = enum_index(labels.skip(1), b);
        if r < 0 {
            -1
        } else {
            r + 1
        }
    }
}

pub proof fn lemma_enum_index(labels: Seq<Seq<u8>>, b: Seq<u8>)
    ensures
        enum_index(labels, b) >= 0 ==> enum_index(labels, b) < labels.len() && labels[enum_index(
            labels,
            b,
        )] == b,
        enum_index(labels, b) < 0 ==> forall|j: int| 0 <= j < labels.len() ==> labels[j] != b,
        enum_index(labels, b) >= 0 ==> forall|j: int|
            0 <= j < enum_index(labels, b) ==> labels[j] != b,
    decreases labels.len(),
{
    if labels.len() > 0 && labels[0] != b {
        lemma_enum_index(labels.skip(1), b);
        assert(forall|j: int| 1 <= j < labels.len() ==> labels[j] == labels.skip(1)[j - 1]);
    }
}

/// The buffer kind a conversion produces.
pub open spec fn conv_kind(c: Conversion) -> ChunkKind {
    match c {
        Conversion::BoolWire => ChunkKind::Bool,
        Conversion::I16Wire => ChunkKind::I32,
        Conversion::I32Wire => ChunkKind::I32,
        Conversion::I64Wire => ChunkKind::I64,
        Conversion::U32Wire => ChunkKind::I32,
        Conversion::CharWire => ChunkKind::I32,
        Conversion::F32Wire => ChunkKind::F32,
        Conversion::F64Wire => ChunkKind::F64,
        Conversion::TimestampWire => ChunkKind::I64,
        Conversion::DateWire => ChunkKind::I32,
        Conversion::TimeWire => ChunkKind::I64,
        Conversion::MoneyWire => ChunkKind::I64,
        Conversion::MacInt64Wire => ChunkKind::I64,
        Conversion::EnumIntWire(_) => ChunkKind::I32,
        Conversion::BoolVal => ChunkKind::Bool,
        Conversion::I32Val => ChunkKind::I32,
        Conversion::F32BitsVal => ChunkKind::F32,
        Conversion::PairKeyVal => ChunkKind::I32,
        Conversion::PairValueVal => ChunkKind::F32,
        Conversion::IntervalMonthsWire => ChunkKind::I32,
        Conversion::IntervalDaysWire => ChunkKind::I32,
        Conversion::IntervalMicrosWire => ChunkKind::I64,
        Conversion::NumericF64TextWire => ChunkKind::F64Dec,
        Conversion::NumericF32TextWire => ChunkKind::F32Dec,
        Conversion::F16ToF32Wire => ChunkKind::F32,
        Conversion::DecimalI32Wire(_, _) => ChunkKind::I32,
        Conversion::DecimalI64Wire(_, _) => ChunkKind::I64,
        Conversion::DecimalBytesWire(_, _) => ChunkKind::DecBytes,
    }
}

/// Structural demands on a conversion.
pub open spec fn conv_wf(c: Conversion) -> bool {
    match c {
        Conversion::EnumIntWire(labels) => labels@.len() < 0x7fffffff,
        Conversion::DecimalI32Wire(p, sc) => 1 <= p <= 9 && -0x4000 <= sc <= 0x4000,
        Conversion::DecimalI64Wire(p, sc) => 1 <= p <= 18 && -0x4000 <= sc <= 0x4000,
        Conversion::DecimalBytesWire(p, sc) => 1 <= p <= 38 && -0x4000 <= sc <= 0x4000,
        _ => true,
    }
}

/// Whether a conversion can replace a value by NULL instead of failing.
pub open spec fn conv_can_soft(c: Conversion) -> bool {
    match c {
        Conversion::DecimalI32Wire(_, _) => true,
        Conversion::DecimalI64Wire(_, _) => true,
        Conversion::DecimalBytesWire(_, _) => true,
        _ => false,
    }
}

/// The meaning of each conversion, as a function from the decoded value
/// to the converted result.
pub open spec fn conv_res(c: Conversion, v: PgV) -> CRes {
    match c {
        Conversion::BoolWire => match v {
            PgV::Raw(b) => if b.len() == 1 {
                CRes::CVal(PqVal::B(b[0] != 0))
            } else {
                CRes::CErr
            },
            _ => CRes::CErr,
        },
        Conversion::I16Wire => match v {
            PgV::Raw(b) => if b.len() == 2 {
                CRes::CVal(PqVal::I32(be_i16(b) as i32))
            } else {
                CRes::CErr
            },
            _ => CRes::CErr,
        },
        Conversion::I32Wire => match v {
            PgV::Raw(b) => if b.len() == 4 {
                CRes::CVal(PqVal::I32(be_i32(b) as i32))
            } else {
                CRes::CErr
            },
            _ => CRes::CErr,
        },
        Conversion::I64Wire => match v {
            PgV::Raw(b) => if b.len() == 8 {
                CRes::CVal(PqVal::I64(be_i64(b) as i64))
            } else {
                CRes::CErr
            },
            _ => CRes::CErr,
        },
        Conversion::U32Wire => match v {
            PgV::Raw(b) => if b.len() == 4 {
                CRes::CVal(PqVal::I32(signed_of_u32(be_u32(b)) as i32))
            } else {
                CRes::CErr
            },
            _ => CRes::CErr,
        },
        Conversion::CharWire => match v {
            PgV::Raw(b) => if b.len() == 1 {
                CRes::CVal(PqVal::I32(signed_of_u8(b[0] as int) as i32))
            } else {
                CRes::CErr
            },
            _ => CRes::CErr,
        },
        Conversion::F32Wire => match v {
            PgV::Raw(b) => if b.len() == 4 {
                CRes::CVal(PqVal::F32(be_u32(b) as u32))
            } else {
                CRes::CErr
            },
            _ => CRes::CErr,
        },
        Conversion::F64Wire => match v {
            PgV::Raw(b) => if b.len() == 8 {
                CRes::CVal(PqVal::F64(be_u64(b) as u64))
            } else {
                CRes::CErr
            },
            _ => CRes::CErr,
        },
        Conversion::TimestampWire => match v {
            PgV::Raw(b) => if b.len() == 8 && be_i64(b) + 946684800000000 <= i64::MAX {
                CRes::CVal(PqVal::I64((be_i64(b) + 946684800000000) as i64))
            } else {
                CRes::CErr
            },
            _ => CRes::CErr,
        },
        Conversion::DateWire => match v {
            PgV::Raw(b) => if b.len() == 4 && be_i32(b) + 10957 <= i32::MAX {
                CRes::CVal(PqVal::I32((be_i32(b) + 10957) as i32))
            } else {
                CRes::CErr
            },
            _ => CRes::CErr,
        },
        Conversion::TimeWire => match v {
            PgV::Raw(b) => if b.len() == 8 {
                CRes::CVal(PqVal::I64(be_i64(b) as i64))
            } else {
                CRes::CErr
            },
            _ => CRes::CErr,
        },
        Conversion::MoneyWire => match v {
            PgV::Raw(b) => if b.len() == 8 {
                CRes::CVal(PqVal::I64(be_i64(b) as i64))
            } else {
                CRes::CErr
            },
            _ => CRes::CErr,
        },
        Conversion::MacInt64Wire => match v {
            PgV::Raw(b) => if b.len() == 6 {
                CRes::CVal(
                    PqVal::I64(
                        (b[0] * 0x10000000000 + b[1] * 0x100000000 + b[2] * 0x1000000 + b[3]
                            * 0x10000 + b[4] * 0x100 + b[5]) as i64,
                    ),
                )
            } else {
                CRes::CErr
            },
            _ => CRes::CErr,
        },
        Conversion::EnumIntWire(labels) => match v {
            PgV::Raw(b) => if enum_index(labels_view(labels@), b) >= 0 {
                CRes::CVal(PqVal::I32((enum_index(labels_view(labels@), b) + 1) as i32))
            } else {
                CRes::CErr
            },
            _ => CRes::CErr,
        },
        Conversion::BoolVal => match v {
            PgV::Bool(x) => CRes::CVal(PqVal::B(x)),
            _ => CRes::CErr,
        },
        Conversion::I32Val => match v {
            PgV::I32(x) => CRes::CVal(PqVal::I32(x)),
            _ => CRes::CErr,
        },
        Conversion::F32BitsVal => match v {
            PgV::F32Bits(x) => CRes::CVal(PqVal::F32(x)),
            _ => CRes::CErr,
        },
        Conversion::PairKeyVal => match v {
            PgV::Pair(k, _) => CRes::CVal(PqVal::I32(k)),
            _ => CRes::CErr,
        },
        Conversion::PairValueVal => match v {
            PgV::Pair(_, x) => CRes::CVal(PqVal::F32(x)),
            _ => CRes::CErr,
        },
        Conversion::IntervalMonthsWire => match v {
            PgV::Raw(b) => if b.len() == 16 {
                CRes::CVal(PqVal::I32(be_i32(b.skip(12)) as i32))
            } else {
                CRes::CErr
            },
            _ => CRes::CErr,
        },
        Conversion::IntervalDaysWire => match v {
            PgV::Raw(b) => if b.len() == 16 {
                CRes::CVal(PqVal::I32(be_i32(b.skip(8)) as i32))
            } else {
                CRes::CErr
            },
            _ => CRes::CErr,
        },
        Conversion::IntervalMicrosWire => match v {
            PgV::Raw(b) => if b.len() == 16 {
                CRes::CVal(PqVal::I64(be_i64(b) as i64))
            } else {
                CRes::CErr
            },
            _ => CRes::CErr,
        },
        Conversion::NumericF64TextWire => match v {
            PgV::Raw(b) => match crate::datatypes::numeric::spec_parse_numeric(b) {
                Option::None => CRes::CErr,
                Option::Some(nv) => CRes::CVal(
                    PqVal::F64Dec(crate::datatypes::numeric::numeric_text(nv)),
                ),
            },
            _ => CRes::CErr,
        },
        Conversion::NumericF32TextWire => match v {
            PgV::Raw(b) => match crate::datatypes::numeric::spec_parse_numeric(b) {
                Option::None => CRes::CErr,
                Option::Some(nv) => CRes::CVal(
                    PqVal::F32Dec(crate::datatypes::numeric::numeric_text(nv)),
                ),
            },
            _ => CRes::CErr,
        },
        Conversion::F16ToF32Wire => match v {
            PgV::Raw(b) => if b.len() == 2 {
                CRes::CVal(PqVal::F32(f16_to_f32_bits(be_u16(b)) as u32))
            } else {
                CRes::CErr
            },
            _ => CRes::CErr,
        },
        Conversion::DecimalI32Wire(p, sc) => match v {
            PgV::Raw(b) => match crate::datatypes::numeric::spec_parse_numeric(b) {
                Option::None => CRes::CErr,
                Option::Some(nv) => if nv.nan {
                    CRes::CNull
                } else {
                    match crate::datatypes::numeric::numeric_scaled(nv, p as int, sc as int) {
                        Option::None => CRes::CSoft,
                        Option::Some(x) => CRes::CVal(PqVal::I32(x as i32)),
                    }
                },
            },
            _ => CRes::CErr,
        },
        Conversion::DecimalI64Wire(p, sc) => match v {
            PgV::Raw(b) => match crate::datatypes::numeric::spec_parse_numeric(b) {
                Option::None => CRes::CErr,
                Option::Some(nv) => if nv.nan {
                    CRes::CNull
                } else {
                    match crate::datatypes::numeric::numeric_scaled(nv, p as int, sc as int) {
                        Option::None => CRes::CSoft,
                        Option::Some(x) => CRes::CVal(PqVal::I64(x as i64)),
                    }
                },
            },
            _ => CRes::CErr,
        },
        Conversion::DecimalBytesWire(p, sc) => match v {
            PgV::Raw(b) => match crate::datatypes::numeric::spec_parse_numeric(b) {
                Option::None => CRes::CErr,
                Option::Some(nv) => if nv.nan {
                    CRes::CNull
                } else {
                    match crate::datatypes::numeric::numeric_scaled(nv, p as int, sc as int) {
                        Option::None => CRes::CSoft,
                        Option::Some(x) => CRes::CVal(
                            PqVal::Bytes(crate::datatypes::numeric::tc_bytes(x)),
                        ),
                    }
                },
            },
            _ => CRes::CErr,
        },
    }
}

/// Widen a half-precision float bit pattern to single precision.
pub open spec fn f16_to_f32_bits(h: int) -> int {
    let sign = h / 0x8000;
    let e = (h / 0x400) % 0x20;
    let m = h % 0x400;
    if e == 31 {
        sign * 0x80000000 + 0xff * 0x800000 + m * 0x2000
    } else if e == 0 {
        if m == 0 {
            sign * 0x80000000
        } else {
            let j = sub_shift(m);
            sign * 0x80000000 + (113 - j) * 0x800000 + (m * pow2j(j) - 0x400) * 0x2000
        }
    } else {
        sign * 0x80000000 + (e + 112) * 0x800000 + m * 0x2000
    }
}

/// How far a subnormal half mantissa must shift to reach the hidden bit.
pub open spec fn sub_shift(m: int) -> int {
    if m >= 0x200 {
        1
    } else if m >= 0x100 {
        2
    } else if m >= 0x80 {
        3
    } else if m >= 0x40 {
        4
    } else if m >= 0x20 {
        5
    } else if m >= 0x10 {
        6
    } else if m >= 8 {
        7
    } else if m >= 4 {
        8
    } else if m >= 2 {
        9
    } else {
        10
    }
}

/// Small powers of two.
pub open spec fn pow2j(j: int) -> int {
    if j <= 0 {
        1
    } else if j == 1 {
        2
    } else if j == 2 {
        4
    } else if j == 3 {
        8
    } else if j == 4 {
        16
    } else if j == 5 {
        32
    } else if j == 6 {
        64
    } else if j == 7 {
        128
    } else if j == 8 {
        256
    } else if j == 9 {
        512
    } else {
        1024
    }
}

/// Widen a half-precision float, executable.
pub fn f16_to_f32_exec(h: u16) -> (r: u32)
    ensures
        r as int == f16_to_f32_bits(h as int),
{
    let sign: u32 = (h as u32) / 0x8000;
    let e: u32 = ((h as u32) / 0x400) % 0x20;
    let m: u32 = (h as u32) % 0x400;
    if e == 31 {
        sign * 0x80000000 + 0xff * 0x800000 + m * 0x2000
    } else if e == 0 {
        if m == 0 {
            sign * 0x80000000
        } else {
            let j: u32 = if m >= 0x200 {
                1
            } else if m >= 0x100 {
                2
            } else if m >= 0x80 {
                3
            } else if m >= 0x40 {
                4
            } else if m >= 0x20 {
                5
            } else if m >= 0x10 {
                6
            } else if m >= 8 {
                7
            } else if m >= 4 {
                8
            } else if m >= 2 {
                9
            } else {
                10
            };
            let p: u32 = if j == 1 {
                2
            } else if j == 2 {
                4
            } else if j == 3 {
                8
            } else if j == 4 {
                16
            } else if j == 5 {
                32
            } else if j == 6 {
                64
            } else if j == 7 {
                128
            } else if j == 8 {
                256
            } else if j == 9 {
                512
            } else {
                1024
            };
            sign * 0x80000000 + (113 - j) * 0x800000 + (m * p - 0x400) * 0x2000
        }
    } else {
        sign * 0x80000000 + (e + 112) * 0x800000 + m * 0x2000
    }
}

/// Signed reading of an unsigned 32-bit value, the way `oid` is stored in
/// a signed 32-bit column.
pub open spec fn signed_of_u32(u: int) -> int {
    if u < 0x80000000 {
        u
    } else {
        u - 0x100000000
    }
}

/// Signed reading of one byte.
pub open spec fn signed_of_u8(u: int) -> int {
    if u < 0x80 {
        u
    } else {
        u - 0x100
    }
}

/// Compare two byte strings.
pub fn bytes_eq(a: &Vec<u8>, b: &Vec<u8>) -> (r: bool)
    ensures
        r == (a@ == b@),
{
    if a.len() != b.len() {
        proof {
            assert(a@.len() != b@.len());
        }
        return false;
    }
    let n = a.len();
    let mut i: usize = 0;
    while i < n
        invariant
            i <= n,
            n == a@.len(),
            n == b@.len(),
            forall|j: int| 0 <= j < i ==> a@[j] == b@[j],
        decreases n - i,
    {
        if a[i] != b[i] {
            return false;
        }
        i = i + 1;
    }
    proof {
        assert(a@ =~= b@);
    }
    true
}

/// The outcome of one conversion.
pub enum ConvOut {
    Val(PrimVal),
    /// Replaced by NULL, warning owed.
    Soft,
    /// Replaced by NULL without a warning.
    Null,
}

/// Run a conversion on one decoded value.
#[verifier::loop_isolation(false)]
pub fn convert(c: &Conversion, v: &PgValue) -> (r: Result<ConvOut, String>)
    requires
        conv_wf(*c),
    ensures
        match r {
            Result::Ok(ConvOut::Val(pv)) => conv_res(*c, v@) == CRes::CVal(pv@),
            Result::Ok(ConvOut::Soft) => conv_res(*c, v@) is CSoft && conv_can_soft(*c),
            Result::Ok(ConvOut::Null) => conv_res(*c, v@) is CNull && conv_can_soft(*c),
            Result::Err(_) => conv_res(*c, v@) is CErr,
        },
{
    match (c, v) {
        (Conversion::BoolWire, PgValue::Raw(b)) => {
            if b.len() == 1 {
                Result::Ok(ConvOut::Val(PrimVal::B(b[0] != 0)))
            } else {
                Result::Err(err_string("unexpected width of a bool value"))
            }
        },
        (Conversion::I16Wire, PgValue::Raw(b)) => {
            if b.len() == 2 {
                let x = read_i16_at(b.as_slice(), 0);
                proof {
                    assert(b@.skip(0) =~= b@);
                }
                Result::Ok(ConvOut::Val(PrimVal::I32(x as i32)))
            } else {
                Result::Err(err_string("unexpected width of an int2 value"))
            }
        },
        (Conversion::I32Wire, PgValue::Raw(b)) => {
            if b.len() == 4 {
                let x = read_i32_at(b.as_slice(), 0);
                proof {
                    assert(b@.skip(0) =~= b@);
                }
                Result::Ok(ConvOut::Val(PrimVal::I32(x)))
            } else {
                Result::Err(err_string("unexpected width of an int4 value"))
            }
        },
        (Conversion::I64Wire, PgValue::Raw(b)) => {
            if b.len() == 8 {
                let x = read_i64_at(b.as_slice(), 0);
                proof {
                    assert(b@.skip(0) =~= b@);
                }
                Result::Ok(ConvOut::Val(PrimVal::I64(x)))
            } else {
                Result::Err(err_string("unexpected width of an int8 value"))
            }
        },
        (Conversion::U32Wire, PgValue::Raw(b)) => {
            if b.len() == 4 {
                let x = read_i32_at(b.as_slice(), 0);
                proof {
                    assert(b@.skip(0) =~= b@);
                }
                Result::Ok(ConvOut::Val(PrimVal::I32(x)))
            } else {
                Result::Err(err_string("unexpected width of an oid value"))
            }
        },
        (Conversion::CharWire, PgValue::Raw(b)) => {
            if b.len() == 1 {
                let x = b[0];
                let s: i32 = if x < 0x80 {
                    x as i32
                } else {
                    (x as i32) - 0x100
                };
                Result::Ok(ConvOut::Val(PrimVal::I32(s)))
            } else {
                Result::Err(err_string("unexpected width of a char value"))
            }
        },
        (Conversion::F32Wire, PgValue::Raw(b)) => {
            if b.len() == 4 {
                let x = read_u32_at(b.as_slice(), 0);
                proof {
                    assert(b@.skip(0) =~= b@);
                }
                Result::Ok(ConvOut::Val(PrimVal::F32(x)))
            } else {
                Result::Err(err_string("unexpected width of a float4 value"))
            }
        },
        (Conversion::F64Wire, PgValue::Raw(b)) => {
            if b.len() == 8 {
                let x = read_u64_at(b.as_slice(), 0);
                proof {
                    assert(b@.skip(0) =~= b@);
                }
                Result::Ok(ConvOut::Val(PrimVal::F64(x)))
            } else {
                Result::Err(err_string("unexpected width of a float8 value"))
            }
        },
        (Conversion::TimestampWire, PgValue::Raw(b)) => {
            if b.len() == 8 {
                let x = read_i64_at(b.as_slice(), 0);
                proof {
                    assert(b@.skip(0) =~= b@);
                }
                if x <= i64::MAX - 946684800000000 {
                    Result::Ok(ConvOut::Val(PrimVal::I64(x + 946684800000000)))
                } else {
                    Result::Err(err_string("timestamp out of range"))
                }
            } else {
                Result::Err(err_string("unexpected width of a timestamp value"))
            }
        },
        (Conversion::DateWire, PgValue::Raw(b)) => {
            if b.len() == 4 {
                let x = read_i32_at(b.as_slice(), 0);
                proof {
                    assert(b@.skip(0) =~= b@);
                }
                if x <= i32::MAX - 10957 {
                    Result::Ok(ConvOut::Val(PrimVal::I32(x + 10957)))
                } else {
                    Result::Err(err_string("date out of range"))
                }
            } else {
                Result::Err(err_string("unexpected width of a date value"))
            }
        },
        (Conversion::TimeWire, PgValue::Raw(b)) => {
            if b.len() == 8 {
                let x = read_i64_at(b.as_slice(), 0);
                proof {
                    assert(b@.skip(0) =~= b@);
                }
                Result::Ok(ConvOut::Val(PrimVal::I64(x)))
            } else {
                Result::Err(err_string("unexpected width of a time value"))
            }
        },
        (Conversion::MoneyWire, PgValue::Raw(b)) => {
            if b.len() == 8 {
                let x = read_i64_at(b.as_slice(), 0);
                proof {
                    assert(b@.skip(0) =~= b@);
                }
                Result::Ok(ConvOut::Val(PrimVal::I64(x)))
            } else {
                Result::Err(err_string("unexpected width of a money value"))
            }
        },
        (Conversion::MacInt64Wire, PgValue::Raw(b)) => {
            if b.len() == 6 {
                let x: i64 = (b[0] as i64) * 0x10000000000 + (b[1] as i64) * 0x100000000 + (
                b[2] as i64) * 0x1000000 + (b[3] as i64) * 0x10000 + (b[4] as i64) * 0x100 + (
                b[5] as i64);
                Result::Ok(ConvOut::Val(PrimVal::I64(x)))
            } else {
                Result::Err(err_string("unexpected width of a macaddr value"))
            }
        },
        (Conversion::EnumIntWire(labels), PgValue::Raw(b)) => {
            proof {
                lemma_enum_index(labels_view(labels@), b@);
            }
            let n = labels.len();
            let mut i: usize = 0;
            while i < n
                invariant
                    i <= n,
                    n == labels@.len(),
                    n < 0x7fffffff,
                    forall|j: int| 0 <= j < i ==> labels_view(labels@)[j] != b@,
                decreases n - i,
            {
                if bytes_eq(&labels[i], b) {
                    proof {
                        lemma_enum_index(labels_view(labels@), b@);
                        assert(labels_view(labels@)[i as int] == labels@[i as int]@);
                        let e = enum_index(labels_view(labels@), b@);
                        if e < 0 {
                            assert(labels_view(labels@)[i as int] != b@);
                        } else if e < i {
                            assert(labels_view(labels@)[e] != b@);
                        } else if e > i {
                            assert(labels_view(labels@)[i as int] != b@);
                        }
                        assert(e == i);
                    }
                    return Result::Ok(ConvOut::Val(PrimVal::I32((i as i32) + 1)));
                }
                proof {
                    assert(labels_view(labels@)[i as int] == labels@[i as int]@);
                }
                i = i + 1;
            }
            proof {
                lemma_enum_index(labels_view(labels@), b@);
            }
            Result::Err(err_string("enum label is not part of the planned enum type"))
        },
        (Conversion::BoolVal, PgValue::Bool(x)) => Result::Ok(ConvOut::Val(PrimVal::B(*x))),
        (Conversion::I32Val, PgValue::I32(x)) => Result::Ok(ConvOut::Val(PrimVal::I32(*x))),
        (Conversion::F32BitsVal, PgValue::F32Bits(x)) => Result::Ok(
            ConvOut::Val(PrimVal::F32(*x)),
        ),
        (Conversion::PairKeyVal, PgValue::Pair(k, _)) => Result::Ok(
            ConvOut::Val(PrimVal::I32(*k)),
        ),
        (Conversion::PairValueVal, PgValue::Pair(_, x)) => Result::Ok(
            ConvOut::Val(PrimVal::F32(*x)),
        ),
        (Conversion::IntervalMonthsWire, PgValue::Raw(b)) => {
            if b.len() == 16 {
                let x = read_i32_at(b.as_slice(), 12);
                Result::Ok(ConvOut::Val(PrimVal::I32(x)))
            } else {
                Result::Err(err_string("unexpected width of an interval value"))
            }
        },
        (Conversion::IntervalDaysWire, PgValue::Raw(b)) => {
            if b.len() == 16 {
                let x = read_i32_at(b.as_slice(), 8);
                Result::Ok(ConvOut::Val(PrimVal::I32(x)))
            } else {
                Result::Err(err_string("unexpected width of an interval value"))
            }
        },
        (Conversion::IntervalMicrosWire, PgValue::Raw(b)) => {
            if b.len() == 16 {
                let x = read_i64_at(b.as_slice(), 0);
                proof {
                    assert(b@.skip(0) =~= b@);
                }
                Result::Ok(ConvOut::Val(PrimVal::I64(x)))
            } else {
                Result::Err(err_string("unexpected width of an interval value"))
            }
        },
        (Conversion::NumericF64TextWire, PgValue::Raw(b)) => {
            match parse_numeric_checked(b) {
                Result::Err(e) => Result::Err(e),
                Result::Ok(nv) => {
                    let txt = crate::datatypes::numeric::numeric_to_text(&nv);
                    Result::Ok(ConvOut::Val(PrimVal::F64Dec(txt)))
                },
            }
        },
        (Conversion::NumericF32TextWire, PgValue::Raw(b)) => {
            match parse_numeric_checked(b) {
                Result::Err(e) => Result::Err(e),
                Result::Ok(nv) => {
                    let txt = crate::datatypes::numeric::numeric_to_text(&nv);
                    Result::Ok(ConvOut::Val(PrimVal::F32Dec(txt)))
                },
            }
        },
        (Conversion::F16ToF32Wire, PgValue::Raw(b)) => {
            if b.len() == 2 {
                let h = read_u16_at(b.as_slice(), 0);
                proof {
                    assert(b@.skip(0) =~= b@);
                }
                Result::Ok(ConvOut::Val(PrimVal::F32(f16_to_f32_exec(h))))
            } else {
                Result::Err(err_string("unexpected width of a half-precision value"))
            }
        },
        (Conversion::DecimalI32Wire(p, sc), PgValue::Raw(b)) => {
            match parse_numeric_checked(b) {
                Result::Err(e) => Result::Err(e),
                Result::Ok(nv) => {
                    if nv.nan {
                        Result::Ok(ConvOut::Null)
                    } else {
                        match crate::datatypes::numeric::numeric_scaled_exec(&nv, *p, *sc) {
                            Option::None => Result::Ok(ConvOut::Soft),
                            Option::Some(x) => {
                                proof {
                                    crate::datatypes::numeric::lemma_pow10_small(*p as int);
                                }
                                Result::Ok(ConvOut::Val(PrimVal::I32(x as i32)))
                            },
                        }
                    }
                },
            }
        },
        (Conversion::DecimalI64Wire(p, sc), PgValue::Raw(b)) => {
            match parse_numeric_checked(b) {
                Result::Err(e) => Result::Err(e),
                Result::Ok(nv) => {
                    if nv.nan {
                        Result::Ok(ConvOut::Null)
                    } else {
                        match crate::datatypes::numeric::numeric_scaled_exec(&nv, *p, *sc) {
                            Option::None => Result::Ok(ConvOut::Soft),
                            Option::Some(x) => {
                                proof {
                                    crate::datatypes::numeric::lemma_pow10_small(*p as int);
                                }
                                Result::Ok(ConvOut::Val(PrimVal::I64(x as i64)))
                            },
                        }
                    }
                },
            }
        },
        (Conversion::DecimalBytesWire(p, sc), PgValue::Raw(b)) => {
            match parse_numeric_checked(b) {
                Result::Err(e) => Result::Err(e),
                Result::Ok(nv) => {
                    if nv.nan {
                        Result::Ok(ConvOut::Null)
                    } else {
                        match crate::datatypes::numeric::numeric_scaled_exec(&nv, *p, *sc) {
                            Option::None => Result::Ok(ConvOut::Soft),
                            Option::Some(x) => {
                                let bytes = crate::datatypes::numeric::tc_bytes_exec(x);
                                Result::Ok(ConvOut::Val(PrimVal::Bytes(bytes)))
                            },
                        }
                    }
                },
            }
        },
        _ => Result::Err(err_string("value does not fit the planned column")),
    }
}

/// Parse a numeric, with the parse result tied to its specification.
fn parse_numeric_checked(b: &Vec<u8>) -> (r: Result<
    crate::datatypes::numeric::PgNumericValue,
    String,
>)
    ensures
        match r {
            Result::Ok(nv) => {
                &&& crate::datatypes::numeric::spec_parse_numeric(b@) == Option::Some(nv@)
                &&& nv.wf()
            },
            Result::Err(_) => crate::datatypes::numeric::spec_parse_numeric(b@) is None,
        },
{
    crate::datatypes::numeric::parse_numeric(b.as_slice())
}

/// An owned error message.
/// The warning a soft decimal overflow leaves: it names the numeric
/// value in its text form where the wire value parses and its text
/// decodes, and speaks generally otherwise.
pub open spec fn soft_note(v: crate::appenders::records::PgV) -> Seq<char> {
    let fixed = ("a numeric value does not fit the planned decimal width and was replaced by NULL")@;
    match v {
        crate::appenders::records::PgV::Raw(b) => match crate::datatypes::numeric::spec_parse_numeric(
            b,
        ) {
            Option::Some(nv) => if vstd::utf8::valid_utf8(
                crate::datatypes::numeric::numeric_text(nv),
            ) {
                ("numeric value ")@ + vstd::utf8::decode_utf8(
                    crate::datatypes::numeric::numeric_text(nv),
                ) + (" does not fit the planned decimal width and was replaced by NULL")@
            } else {
                fixed
            },
            Option::None => fixed,
        },
        _ => fixed,
    }
}

pub fn err_string(m: &str) -> (r: String)
    ensures
        r@ == m@,
{
    m.to_owned()
}

/// The buffered size of a converted value.
pub fn prim_size(v: &PrimVal) -> (r: usize)
    ensures
        r as int == pq_size(v@),
{
    match v {
        PrimVal::B(_) => 1,
        PrimVal::I32(_) => 4,
        PrimVal::I64(_) => 8,
        PrimVal::F32(_) => 4,
        PrimVal::F64(_) => 8,
        PrimVal::F32Dec(x) => x.len(),
        PrimVal::F64Dec(x) => x.len(),
        PrimVal::Bytes(x) => x.len(),
    }
}

/// Buffers converted primitive values together with their definition and
/// repetition levels; one leaf of the appender tree.
pub struct GenericColumnAppender {
    max_dl: i16,
    max_rl: i16,
    conversion: Conversion,
    column: ColumnBuffer,
    dls: Vec<i16>,
    rls: Vec<i16>,
    repetition_index: LevelIndexState,
    warned: bool,
    history: Ghost<Seq<Rec>>,
    flushed: Ghost<int>,
}

impl GenericColumnAppender {
    /// The column as the model sees it.
    pub closed spec fn leaf(&self) -> LeafModel {
        LeafModel {
            max_dl: self.max_dl as int,
            max_rl: self.max_rl as int,
            history: self.history@,
            flushed: self.flushed@,
            mark: self.repetition_index@,
        }
    }

    /// The conversion this column applies.
    pub closed spec fn conv(&self) -> Conversion {
        self.conversion
    }

    /// Whether the soft-overflow warning has been given already.
    pub closed spec fn spec_warned(&self) -> bool {
        self.warned
    }

    pub closed spec fn wf(&self) -> bool {
        &&& self.leaf().ok()
        &&& self.repetition_index.wf()
        &&& conv_wf(self.conversion)
        &&& self.column.kind() == conv_kind(self.conversion)
        &&& (conv_can_soft(self.conversion) ==> self.max_dl >= 1)
        &&& self.column@ == vals_of(self.leaf().pending())
        &&& (self.history@.len() == 0 ==> forall|i: int|
            0 <= i < self.repetition_index@.len() ==> self.repetition_index@[i] == usize::MAX)
        &&& (if self.max_dl > 0 {
            &&& self.dls@.len() == self.leaf().pending().len()
            &&& forall|i: int|
                0 <= i < self.dls@.len() ==> #[trigger] self.dls@[i] as int == self.leaf().pending()[i].dl
        } else {
            self.dls@.len() == 0
        })
        &&& (if self.max_rl > 0 {
            &&& self.rls@.len() == self.leaf().pending().len()
            &&& forall|i: int|
                0 <= i < self.rls@.len() ==> #[trigger] self.rls@[i] as int == self.leaf().pending()[i].rl
        } else {
            self.rls@.len() == 0
        })
    }

    /// A well-formed appender has a well-formed leaf model.
    pub proof fn lemma_wf_leaf(&self)
        requires
            self.wf(),
        ensures
            self.leaf().ok(),
    {
    }

    /// A fresh primitive appender with the given level maxima and
    /// conversion.
    pub fn new(max_dl: i16, max_rl: i16, conversion: Conversion) -> (r: Self)
        requires
            0 <= max_dl,
            0 <= max_rl < 0x7fff,
            conv_wf(conversion),
            conv_can_soft(conversion) ==> max_dl >= 1,
        ensures
            r.wf(),
            r.conv() == conversion,
            r.leaf().max_dl == max_dl,
            r.leaf().max_rl == max_rl,
            r.leaf().history =~= Seq::<Rec>::empty(),
            r.leaf().flushed == 0,
            crate::appenders::records::fresh_leaf(r.leaf()),
            !r.spec_warned(),
    {
        let column = ColumnBuffer::new(conversion_kind(&conversion));
        let r = GenericColumnAppender {
            max_dl,
            max_rl,
            conversion,
            column,
            dls: Vec::new(),
            rls: Vec::new(),
            repetition_index: LevelIndexState::new(max_rl),
            warned: false,
            history: Ghost(Seq::empty()),
            flushed: Ghost(0),
        };
        proof {
            assert(r.leaf().pending() =~= Seq::<Rec>::empty());
            assert(r.column@ =~= vals_of(r.leaf().pending()));
        }
        r
    }

    pub fn max_dl(&self) -> (r: i16)
        ensures
            r as int == self.leaf().max_dl,
    {
        self.max_dl
    }

    pub fn max_rl(&self) -> (r: i16)
        ensures
            r as int == self.leaf().max_rl,
    {
        self.max_rl
    }

    /// Convert one value and buffer the resulting record.
    pub fn copy_value(
        self,
        repetition_index: &LevelIndexList,
        value: &PgValue,
        warnings: &mut Vec<String>,
    ) -> (r: (Self, Result<usize, String>))
        requires
            self.wf(),
            repetition_index.wf(),
            repetition_index@.len() == self.leaf().max_rl + 1,
        ensures
            r.0.wf(),
            r.0.conv() == self.conv(),
            r.1 is Ok <==> !(conv_res(self.conv(), value@) is CErr),
            conv_res(self.conv(), value@) is CErr ==> r.0 == self && final(warnings)@ == old(warnings)@,
            (match conv_res(self.conv(), value@) {
                CRes::CVal(v) => {
                    &&& appended1(
                        self.leaf(),
                        r.0.leaf(),
                        repetition_index@,
                        self.leaf().max_dl,
                        Option::Some(v),
                    )
                    &&& final(warnings)@ == old(warnings)@
                    &&& r.0.spec_warned() == self.spec_warned()
                    &&& r.1 == Result::<usize, String>::Ok(
                        (sat_add(
                            sat_add(
                                pq_size(v),
                                if self.leaf().max_dl > 0 {
                                    2int
                                } else {
                                    0int
                                },
                            ),
                            if self.leaf().max_rl > 0 {
                                2int
                            } else {
                                0int
                            },
                        )) as usize,
                    )
                },
                CRes::CSoft => {
                    &&& appended1(
                        self.leaf(),
                        r.0.leaf(),
                        repetition_index@,
                        self.leaf().max_dl - 1,
                        Option::None,
                    )
                    &&& r.0.spec_warned()
                    &&& (if self.spec_warned() {
                        final(warnings)@ == old(warnings)@
                    } else {
                        &&& final(warnings)@.len() == old(warnings)@.len() + 1
                        &&& final(warnings)@.subrange(0, old(warnings)@.len() as int) == old(
                            warnings,
                        )@
                        &&& (final(warnings)@[old(warnings)@.len() as int])@ == soft_note(value@)
                    })
                },
                CRes::CNull => {
                    &&& appended1(
                        self.leaf(),
                        r.0.leaf(),
                        repetition_index@,
                        self.leaf().max_dl - 1,
                        Option::None,
                    )
                    &&& final(warnings)@ == old(warnings)@
                    &&& r.0.spec_warned() == self.spec_warned()
                },
                CRes::CErr => true,
            }),
    {
        let mut s = self;
        let cr = convert(&s.conversion, value);
        match cr {
            Result::Err(e) => (s, Result::Err(e)),
            Result::Ok(ConvOut::Val(pv)) => {
                let ghost pre = s.leaf();
                let sz = prim_size(&pv);
                let ghost pushed_val = pv@;
                let col = s.column;
                s.column = col.push(pv);
                if s.max_dl > 0 {
                    s.dls.push(s.max_dl);
                }
                let rl = s.repetition_index.copy_and_diff(repetition_index);
                if s.max_rl > 0 {
                    s.rls.push(rl);
                }
                let ghost rec = Rec {
                    dl: s.max_dl as int,
                    rl: rl as int,
                    val: Option::Some(pushed_val),
                };
                proof {
                    s.history@ = pre.history.push(rec);
                    lemma_skip_push(pre.history, rec, pre.flushed);
                    lemma_vals_push(pre.pending(), rec);
                    assert(s.leaf().pending() =~= pre.pending().push(rec));
                    if pre.history.len() == 0 {
                        crate::level_index::lemma_first_diff_head(
                            repetition_index@,
                            pre.mark,
                        );
                    }
                }
                let sz1 = usize_sat_add(
                    sz,
                    if s.max_dl > 0 {
                        2
                    } else {
                        0
                    },
                );
                let sz2 = usize_sat_add(
                    sz1,
                    if s.max_rl > 0 {
                        2
                    } else {
                        0
                    },
                );
                (s, Result::Ok(sz2))
            },
            Result::Ok(nullish) => {
                let is_soft = match nullish {
                    ConvOut::Soft => true,
                    _ => false,
                };
                let ghost pre = s.leaf();
                s.dls.push(s.max_dl - 1);
                let rl = s.repetition_index.copy_and_diff(repetition_index);
                if s.max_rl > 0 {
                    s.rls.push(rl);
                }
                let ghost rec = Rec { dl: s.max_dl as int - 1, rl: rl as int, val: Option::None };
                proof {
                    s.history@ = pre.history.push(rec);
                    lemma_skip_push(pre.history, rec, pre.flushed);
                    lemma_vals_push(pre.pending(), rec);
                    assert(s.leaf().pending() =~= pre.pending().push(rec));
                    if pre.history.len() == 0 {
                        crate::level_index::lemma_first_diff_head(
                            repetition_index@,
                            pre.mark,
                        );
                    }
                }
                let sz: usize = if s.max_rl > 0 {
                    4
                } else {
                    2
                };
                if is_soft && !s.warned {
                    s.warned = true;
                    let mut named = false;
                    match value {
                        PgValue::Raw(bb) => {
                            let mut tb: Vec<u8> = Vec::new();
                            match crate::appenders::byte_array::numeric_text_apply(bb, &mut tb) {
                                Result::Ok(_) => {
                                    match crate::postgresutils::string_from_utf8(tb) {
                                        Option::Some(sv) => {
                                            let mut m = err_string("numeric value ");
                                            m.append(sv.as_str());
                                            m.append(
                                                " does not fit the planned decimal width and was replaced by NULL",
                                            );
                                            proof {
                                                vstd::utf8::encode_utf8_decode_utf8(sv@);
                                                assert(m@ =~= soft_note(value@));
                                            }
                                            warnings.push(m);
                                            named = true;
                                        },
                                        Option::None => {},
                                    }
                                },
                                Result::Err(_) => {},
                            }
                        },
                        _ => {},
                    }
                    if !named {
                        let m = err_string(
                            "a numeric value does not fit the planned decimal width and was replaced by NULL",
                        );
                        proof {
                            assert(m@ =~= soft_note(value@));
                        }
                        warnings.push(m);
                    }
                }
                (s, Result::Ok(sz))
            },
        }
    }

    /// Buffer a NULL marker at the given definition level.
    pub fn write_null(self, repetition_index: &LevelIndexList, level: i16) -> (r: (Self, usize))
        requires
            self.wf(),
            repetition_index.wf(),
            repetition_index@.len() == self.leaf().max_rl + 1,
            0 <= level < self.leaf().max_dl,
        ensures
            r.0.wf(),
            r.0.conv() == self.conv(),
            r.0.spec_warned() == self.spec_warned(),
            appended1(self.leaf(), r.0.leaf(), repetition_index@, level as int, Option::None),
            r.1 as int == if self.leaf().max_rl > 0 {
                4int
            } else {
                2int
            },
    {
        let mut s = self;
        let ghost pre = s.leaf();
        s.dls.push(level);
        let rl = s.repetition_index.copy_and_diff(repetition_index);
        if s.max_rl > 0 {
            s.rls.push(rl);
        }
        let ghost rec = Rec { dl: level as int, rl: rl as int, val: Option::None };
        proof {
            s.history@ = pre.history.push(rec);
            lemma_skip_push(pre.history, rec, pre.flushed);
            lemma_vals_push(pre.pending(), rec);
            assert(s.leaf().pending() =~= pre.pending().push(rec));
            if pre.history.len() == 0 {
                crate::level_index::lemma_first_diff_head(repetition_index@, pre.mark);
            }
        }
        let sz: usize = if s.max_rl > 0 {
            4
        } else {
            2
        };
        (s, sz)
    }

    /// Drain the buffers into one column chunk; the tracker state and the
    /// record history stay.
    pub fn write_column(self) -> (r: (Self, ColumnChunkData))
        requires
            self.wf(),
        ensures
            r.0.wf(),
            r.0.conv() == self.conv(),
            r.0.spec_warned() == self.spec_warned(),
            r.0.leaf().max_dl == self.leaf().max_dl,
            r.0.leaf().max_rl == self.leaf().max_rl,
            r.0.leaf().history == self.leaf().history,
            r.0.leaf().mark == self.leaf().mark,
            r.0.leaf().flushed == self.leaf().history.len(),
            chunk_matches(r.1, self.leaf().pending(), self.leaf().max_dl, self.leaf().max_rl),
    {
        let mut s = self;
        let col = s.column;
        let (col2, vals) = col.take();
        s.column = col2;
        let dls_out: Option<Vec<i16>> = if s.max_dl > 0 {
            let d = s.dls;
            s.dls = Vec::new();
            Option::Some(d)
        } else {
            Option::None
        };
        let rls_out: Option<Vec<i16>> = if s.max_rl > 0 {
            let x = s.rls;
            s.rls = Vec::new();
            Option::Some(x)
        } else {
            Option::None
        };
        proof {
            s.flushed@ = s.history@.len() as int;
            assert(s.leaf().pending() =~= Seq::<Rec>::empty());
            assert(s.column@ =~= vals_of(s.leaf().pending()));
        }
        (s, ColumnChunkData { values: vals, dls: dls_out, rls: rls_out })
    }
}

/// The buffer kind of a conversion, in executable form.
pub fn conversion_kind(c: &Conversion) -> (r: ChunkKind)
    ensures
        r == conv_kind(*c),
{
    match c {
        Conversion::BoolWire => ChunkKind::Bool,
        Conversion::I16Wire => ChunkKind::I32,
        Conversion::I32Wire => ChunkKind::I32,
        Conversion::I64Wire => ChunkKind::I64,
        Conversion::U32Wire => ChunkKind::I32,
        Conversion::CharWire => ChunkKind::I32,
        Conversion::F32Wire => ChunkKind::F32,
        Conversion::F64Wire => ChunkKind::F64,
        Conversion::TimestampWire => ChunkKind::I64,
        Conversion::DateWire => ChunkKind::I32,
        Conversion::TimeWire => ChunkKind::I64,
        Conversion::MoneyWire => ChunkKind::I64,
        Conversion::MacInt64Wire => ChunkKind::I64,
        Conversion::EnumIntWire(_) => ChunkKind::I32,
        Conversion::BoolVal => ChunkKind::Bool,
        Conversion::I32Val => ChunkKind::I32,
        Conversion::F32BitsVal => ChunkKind::F32,
        Conversion::PairKeyVal => ChunkKind::I32,
        Conversion::PairValueVal => ChunkKind::F32,
        Conversion::IntervalMonthsWire => ChunkKind::I32,
        Conversion::IntervalDaysWire => ChunkKind::I32,
        Conversion::IntervalMicrosWire => ChunkKind::I64,
        Conversion::NumericF64TextWire => ChunkKind::F64Dec,
        Conversion::NumericF32TextWire => ChunkKind::F32Dec,
        Conversion::F16ToF32Wire => ChunkKind::F32,
        Conversion::DecimalI32Wire(_, _) => ChunkKind::I32,
        Conversion::DecimalI64Wire(_, _) => ChunkKind::I64,
        Conversion::DecimalBytesWire(_, _) => ChunkKind::DecBytes,
    }
}

} // verus!
