//! The mathematical model of a column: the sequence of Dremel records a
//! leaf appender has emitted, and the plain buffers a flush hands out.

use vstd::prelude::*;

verus! {

/// A buffered Parquet value, as the model sees it.
pub ghost enum PqVal {
    B(bool),
    I32(i32),
    I64(i64),
    /// Bit pattern of a 32-bit IEEE float.
    F32(u32),
    /// Bit pattern of a 64-bit IEEE float.
    F64(u64),
    /// Decimal text destined for a 32-bit float column.
    F32Dec(Seq<u8>),
    /// Decimal text destined for a 64-bit float column.
    F64Dec(Seq<u8>),
    Bytes(Seq<u8>),
    Fixed(Seq<u8>),
}

/// One Dremel record: a definition level, a repetition level, and the
/// value, absent for NULL markers.
#[verifier::ext_equal]
pub ghost struct Rec {
    pub dl: int,
    pub rl: int,
    pub val: Option<PqVal>,
}

/// A record is well formed for a leaf with the given maxima: levels in
/// bounds, values exactly at the maximal definition level, NULL markers
/// strictly below it.
pub open spec fn rec_ok(r: Rec, max_dl: int, max_rl: int) -> bool {
    &&& 0 <= r.dl <= max_dl
    &&& 0 <= r.rl <= max_rl
    &&& r.val is Some ==> r.dl == max_dl
    &&& r.val is None ==> r.dl < max_dl
}

/// The state of one leaf column: its level maxima, every record emitted
/// since creation, how many of them have been flushed, and the remembered
/// position of the level tracker.
#[verifier::ext_equal]
pub ghost struct LeafModel {
    pub max_dl: int,
    pub max_rl: int,
    pub history: Seq<Rec>,
    pub flushed: int,
    pub mark: Seq<usize>,
}

impl LeafModel {
    /// Records buffered since the last flush.
    pub open spec fn pending(self) -> Seq<Rec> {
        self.history.skip(self.flushed)
    }

    pub open spec fn ok(self) -> bool {
        &&& 0 <= self.max_dl <= 0x7fff
        &&& 0 <= self.max_rl < 0x7fff
        &&& self.mark.len() == self.max_rl + 1
        &&& 0 <= self.flushed <= self.history.len()
        &&& forall|i: int|
            0 <= i < self.history.len() ==> rec_ok(#[trigger] self.history[i], self.max_dl, self.max_rl)
        &&& self.history.len() > 0 ==> self.history[0].rl == 0
    }
}

/// A leaf that has never seen a record: empty history and the sentinel
/// tracker position.
pub open spec fn fresh_leaf(l: LeafModel) -> bool {
    &&& l.history.len() == 0
    &&& l.flushed == 0
    &&& forall|j: int| 0 <= j < l.mark.len() ==> l.mark[j] == usize::MAX
}

/// How many records of `h` start a new top-level row.
pub open spec fn rl0_count(h: Seq<Rec>) -> int
    decreases h.len(),
{
    if h.len() == 0 {
        0
    } else {
        rl0_count(h.drop_last()) + if h.last().rl == 0 {
            1int
        } else {
            0int
        }
    }
}

/// The values carried by the records of `h`, in order; NULL markers carry
/// none.
pub open spec fn vals_of(h: Seq<Rec>) -> Seq<PqVal>
    decreases h.len(),
{
    if h.len() == 0 {
        Seq::empty()
    } else if h.last().val is Some {
        vals_of(h.drop_last()).push(h.last().val->Some_0)
    } else {
        vals_of(h.drop_last())
    }
}

pub proof fn lemma_vals_push(h: Seq<Rec>, r: Rec)
    ensures
        r.val is Some ==> vals_of(h.push(r)) == vals_of(h).push(r.val->Some_0),
        r.val is None ==> vals_of(h.push(r)) == vals_of(h),
{
    assert(h.push(r).drop_last() =~= h);
    assert(h.push(r).last() == r);
}

/// Appending a record leaves a previously buffered suffix in place.
pub proof fn lemma_skip_push(h: Seq<Rec>, r: Rec, f: int)
    requires
        0 <= f <= h.len(),
    ensures
        h.push(r).skip(f) =~= h.skip(f).push(r),
{
}

/// One record was appended to a leaf at position `path`: the history grew
/// by a record whose repetition level is the outermost level at which
/// `path` differs from the remembered position, and `path` is now
/// remembered.
pub open spec fn appended1(
    pre: LeafModel,
    post: LeafModel,
    path: Seq<usize>,
    dl: int,
    val: Option<PqVal>,
) -> bool {
    &&& post.max_dl == pre.max_dl
    &&& post.max_rl == pre.max_rl
    &&& post.flushed == pre.flushed
    &&& post.mark =~= path
    &&& post.history =~= pre.history.push(
        Rec { dl, rl: crate::level_index::diff_level(pre.mark, path), val },
    )
}

/// One row of a nullable-element list column, as a reader sees it: the
/// list may be absent, empty, or hold optional elements.
pub ghost enum ListRow {
    Absent,
    Items(Seq<Option<PqVal>>),
}

/// The Dremel records a list row becomes, for a list whose own optional
/// level is `list_dl`: an absent list is one marker one level above, an
/// empty list one marker at the list's level, and elements carry the
/// element levels, the first one opening the row.
pub open spec fn encode_list_row(r: ListRow, list_dl: int) -> Seq<Rec> {
    match r {
        ListRow::Absent => seq![Rec { dl: list_dl - 1, rl: 0, val: Option::None }],
        ListRow::Items(items) => if items.len() == 0 {
            seq![Rec { dl: list_dl, rl: 0, val: Option::None }]
        } else {
            Seq::new(
                items.len(),
                |i: int|
                    match items[i] {
                        Option::None => Rec {
                            dl: list_dl + 1,
                            rl: if i == 0 {
                                0int
                            } else {
                                1int
                            },
                            val: Option::None,
                        },
                        Option::Some(v) => Rec {
                            dl: list_dl + 2,
                            rl: if i == 0 {
                                0int
                            } else {
                                1int
                            },
                            val: Option::Some(v),
                        },
                    },
            )
        },
    }
}

/// The records of a whole sequence of list rows, in row order.
pub open spec fn encode_list_rows(rows: Seq<ListRow>, list_dl: int) -> Seq<Rec>
    decreases rows.len(),
{
    if rows.len() == 0 {
        Seq::empty()
    } else {
        encode_list_rows(rows.drop_last(), list_dl) + encode_list_row(rows.last(), list_dl)
    }
}

/// The position of the last record that opens a row, or `-1`.
pub open spec fn last_rl0(h: Seq<Rec>) -> int
    decreases h.len(),
{
    if h.len() == 0 {
        -1
    } else if h.last().rl == 0 {
        h.len() - 1
    } else {
        last_rl0(h.drop_last())
    }
}

/// Read one row segment back: the marker level distinguishes an absent
/// list from an empty one; anything else is elements.
pub open spec fn decode_list_row(seg: Seq<Rec>, list_dl: int) -> ListRow {
    if seg.len() == 1 && seg[0].dl == list_dl - 1 {
        ListRow::Absent
    } else if seg.len() == 1 && seg[0].dl == list_dl {
        ListRow::Items(Seq::empty())
    } else {
        ListRow::Items(
            Seq::new(
                seg.len(),
                |i: int|
                    if seg[i].dl == list_dl + 2 {
                        seg[i].val
                    } else {
                        Option::None
                    },
            ),
        )
    }
}

/// The records one present LIST row lays down are exactly its Dremel
/// encoding.  `copy_value`'s list contract gives the new records of a
/// non-empty list row this shape — element values at `list_dl + 2`,
/// element NULLs at `list_dl + 1`, the first record opening the row and
/// the rest re-entering at repetition level one — so the executable
/// appender writes `encode_list_row` of the row, and `decode_list_row`
/// reads the same row back.
pub proof fn lemma_list_row_encoding(seg: Seq<Rec>, list_dl: int, items: Seq<Option<PqVal>>)
    requires
        items.len() >= 1,
        seg.len() == items.len(),
        forall|j: int|
            0 <= j < seg.len() ==> (#[trigger] seg[j]).dl == (if items[j] is Some {
                list_dl + 2
            } else {
                list_dl + 1
            }),
        forall|j: int| 0 <= j < seg.len() ==> (#[trigger] seg[j]).val == items[j],
        forall|j: int|
            0 <= j < seg.len() ==> (#[trigger] seg[j]).rl == (if j == 0 {
                0int
            } else {
                1int
            }),
    ensures
        seg =~= encode_list_row(ListRow::Items(items), list_dl),
        decode_list_row(seg, list_dl) is Items,
        decode_list_row(seg, list_dl)->Items_0 =~= items,
{
    assert(seg =~= encode_list_row(ListRow::Items(items), list_dl));
    if seg.len() == 1 {
        assert(seg[0].dl != list_dl - 1 && seg[0].dl != list_dl);
    }
    assert(decode_list_row(seg, list_dl)->Items_0 =~= items);
}

/// The last row-opening record sits inside the sequence.
pub proof fn lemma_last_rl0_bounds(h: Seq<Rec>)
    ensures
        -1 <= last_rl0(h) < h.len(),
    decreases h.len(),
{
    if h.len() > 0 && h.last().rl != 0 {
        lemma_last_rl0_bounds(h.drop_last());
    }
}

#[via_fn]
proof fn decode_list_rows_dec(h: Seq<Rec>, list_dl: int) {
    lemma_last_rl0_bounds(h);
}

/// Read a whole column back: rows are cut at the records that open one.
pub open spec fn decode_list_rows(h: Seq<Rec>, list_dl: int) -> Seq<ListRow>
    decreases h.len(),
    via decode_list_rows_dec
{
    if h.len() == 0 {
        Seq::empty()
    } else {
        let j = last_rl0(h);
        if j <= 0 {
            seq![decode_list_row(h, list_dl)]
        } else {
            decode_list_rows(h.subrange(0, j), list_dl).push(
                decode_list_row(h.skip(j), list_dl),
            )
        }
    }
}

/// Appending one row's records moves the last row-opening record to the
/// start of that row's segment.
pub proof fn lemma_last_rl0_append(a: Seq<Rec>, b: Seq<Rec>)
    requires
        b.len() >= 1,
        b[0].rl == 0,
        forall|j: int| 1 <= j < b.len() ==> b[j].rl != 0,
    ensures
        last_rl0(a + b) == a.len(),
    decreases b.len(),
{
    let h = a + b;
    if b.len() == 1 {
        assert(h.last() == b[0]);
    } else {
        assert(h.last() == b[b.len() - 1]);
        assert(h.last().rl != 0);
        assert(h.drop_last() =~= a + b.drop_last());
        assert(forall|j: int| 1 <= j < b.drop_last().len() ==> b.drop_last()[j] == b[j]);
        assert(b.drop_last()[0] == b[0]);
        lemma_last_rl0_append(a, b.drop_last());
    }
}

/// The encoded records of one list row open it exactly once.
pub proof fn lemma_encode_row_shape(r: ListRow, list_dl: int)
    ensures
        encode_list_row(r, list_dl).len() >= 1,
        encode_list_row(r, list_dl)[0].rl == 0,
        forall|j: int|
            1 <= j < encode_list_row(r, list_dl).len() ==> (#[trigger] encode_list_row(
                r,
                list_dl,
            )[j]).rl != 0,
{
    let e = encode_list_row(r, list_dl);
    match r {
        ListRow::Absent => {},
        ListRow::Items(items) => {
            if items.len() > 0 {
                assert(e[0].rl == 0) by {
                    match items[0] {
                        Option::None => {},
                        Option::Some(_) => {},
                    }
                }
                assert forall|j: int| 1 <= j < e.len() implies (#[trigger] e[j]).rl != 0 by {
                    match items[j] {
                        Option::None => {},
                        Option::Some(_) => {},
                    }
                }
            }
        },
    }
}

/// Reading one encoded row back gives the row.
pub proof fn lemma_decode_row(r: ListRow, list_dl: int)
    requires
        list_dl >= 1,
    ensures
        decode_list_row(encode_list_row(r, list_dl), list_dl) == r,
{
    let e = encode_list_row(r, list_dl);
    match r {
        ListRow::Absent => {
        },
        ListRow::Items(items) => {
            if items.len() == 0 {
                assert(items =~= Seq::<Option<PqVal>>::empty());
            } else {
                assert(e.len() == items.len());
                assert(e[0].dl == list_dl + 1 || e[0].dl == list_dl + 2) by {
                    match items[0] {
                        Option::None => {},
                        Option::Some(_) => {},
                    }
                }
                assert(e[0].dl != list_dl - 1 && e[0].dl != list_dl);
                match decode_list_row(e, list_dl) {
                    ListRow::Absent => {
                        assert(false);
                    },
                    ListRow::Items(out) => {
                        assert(out.len() == items.len());
                        assert forall|i: int| 0 <= i < items.len() implies out[i] == items[i] by {
                            match items[i] {
                                Option::None => {
                                    assert(e[i].dl == list_dl + 1);
                                },
                                Option::Some(v) => {
                                    assert(e[i].dl == list_dl + 2);
                                    assert(e[i].val == Option::Some(v));
                                },
                            }
                        }
                        assert(out =~= items);
                    },
                }
            }
        },
    }
}

/// Round trip: decoding the records written for any sequence of list
/// rows — absent, empty, singleton-null, anything — gives the sequence
/// back.
pub proof fn lemma_list_round_trip(rows: Seq<ListRow>, list_dl: int)
    requires
        list_dl >= 1,
    ensures
        decode_list_rows(encode_list_rows(rows, list_dl), list_dl) =~= rows,
    decreases rows.len(),
{
    if rows.len() > 0 {
        let prefix = encode_list_rows(rows.drop_last(), list_dl);
        let last = encode_list_row(rows.last(), list_dl);
        let h = prefix + last;
        lemma_encode_row_shape(rows.last(), list_dl);
        lemma_last_rl0_append(prefix, last);
        lemma_list_round_trip(rows.drop_last(), list_dl);
        lemma_decode_row(rows.last(), list_dl);
        assert(h.len() > 0);
        if prefix.len() == 0 {
            assert(last_rl0(h) == 0);
            assert(h =~= last);
            assert(decode_list_rows(h, list_dl) =~= seq![
                decode_list_row(last, list_dl),
            ]);
            assert(rows =~= seq![rows.last()]);
        } else {
            assert(last_rl0(h) == prefix.len());
            assert(h.subrange(0, prefix.len() as int) =~= prefix);
            assert(h.skip(prefix.len() as int) =~= last);
        }
    }
}

/// A decoded PostgreSQL value on its way into an appender.
pub enum PgValue {
    /// An absent value.
    Null,
    /// Raw bytes of the binary wire representation, still undecoded.
    Raw(Vec<u8>),
    /// A row, or the pseudo-row of a decoded composite or range: one
    /// optional cell of wire bytes per column.
    Row(Vec<Option<Vec<u8>>>),
    Bool(bool),
    I32(i32),
    I64(i64),
    /// Bit pattern of a 32-bit float element.
    F32Bits(u32),
    /// A sparse-vector entry: one-based position and float bit pattern.
    Pair(i32, u32),
}

/// Ghost mirror of `PgValue` over sequences.
pub ghost enum PgV {
    Null,
    Raw(Seq<u8>),
    Row(Seq<Option<Seq<u8>>>),
    Bool(bool),
    I32(i32),
    I64(i64),
    F32Bits(u32),
    Pair(i32, u32),
}

/// The cells of a row as sequences.
pub open spec fn cells_view(cells: Seq<Option<Vec<u8>>>) -> Seq<Option<Seq<u8>>> {
    cells.map(
        |i: int, c: Option<Vec<u8>>|
            match c {
                Option::Some(b) => Option::Some(b@),
                Option::None => Option::None,
            },
    )
}

impl PgValue {
    pub open spec fn view(&self) -> PgV {
        match self {
            PgValue::Null => PgV::Null,
            PgValue::Raw(b) => PgV::Raw(b@),
            PgValue::Row(cells) => PgV::Row(cells_view(cells@)),
            PgValue::Bool(b) => PgV::Bool(*b),
            PgValue::I32(x) => PgV::I32(*x),
            PgValue::I64(x) => PgV::I64(*x),
            PgValue::F32Bits(x) => PgV::F32Bits(*x),
            PgValue::Pair(k, v) => PgV::Pair(*k, *v),
        }
    }
}

/// The value buffer of one flushed column chunk, in plain form.
pub enum ChunkValues {
    Bool(Vec<bool>),
    I32(Vec<i32>),
    I64(Vec<i64>),
    /// 32-bit float bit patterns.
    F32Bits(Vec<u32>),
    /// 64-bit float bit patterns.
    F64Bits(Vec<u64>),
    /// Decimal text for a 32-bit float column, parsed outside the crate.
    F32Dec(Vec<Vec<u8>>),
    /// Decimal text for a 64-bit float column, parsed outside the crate.
    F64Dec(Vec<Vec<u8>>),
    /// Variable-length byte arrays.
    Bytes(Vec<Vec<u8>>),
    /// Fixed-length byte arrays, each of the given width.
    Fixed(usize, Vec<Vec<u8>>),
}

impl ChunkValues {
    pub open spec fn view(&self) -> Seq<PqVal> {
        match self {
            ChunkValues::Bool(v) => v@.map(|i: int, x: bool| PqVal::B(x)),
            ChunkValues::I32(v) => v@.map(|i: int, x: i32| PqVal::I32(x)),
            ChunkValues::I64(v) => v@.map(|i: int, x: i64| PqVal::I64(x)),
            ChunkValues::F32Bits(v) => v@.map(|i: int, x: u32| PqVal::F32(x)),
            ChunkValues::F64Bits(v) => v@.map(|i: int, x: u64| PqVal::F64(x)),
            ChunkValues::F32Dec(v) => v@.map(|i: int, x: Vec<u8>| PqVal::F32Dec(x@)),
            ChunkValues::F64Dec(v) => v@.map(|i: int, x: Vec<u8>| PqVal::F64Dec(x@)),
            ChunkValues::Bytes(v) => v@.map(|i: int, x: Vec<u8>| PqVal::Bytes(x@)),
            ChunkValues::Fixed(_, v) => v@.map(|i: int, x: Vec<u8>| PqVal::Fixed(x@)),
        }
    }

    pub open spec fn len(&self) -> int {
        self@.len() as int
    }
}

/// One flushed column chunk: the values and, where the column has them,
/// the definition and repetition levels.
pub struct ColumnChunkData {
    pub values: ChunkValues,
    pub dls: Option<Vec<i16>>,
    pub rls: Option<Vec<i16>>,
}

/// What a flushed chunk must look like for a leaf that had `pend`
/// buffered: values in order, levels present exactly when the maxima
/// allow more than one choice.
pub open spec fn chunk_matches(c: ColumnChunkData, pend: Seq<Rec>, max_dl: int, max_rl: int) -> bool {
    &&& c.values@ == vals_of(pend)
    &&& if max_dl > 0 {
        &&& c.dls is Some
        &&& c.dls->Some_0@.len() == pend.len()
        &&& forall|i: int|
            0 <= i < pend.len() ==> #[trigger] c.dls->Some_0@[i] as int == pend[i].dl
    } else {
        c.dls is None
    }
    &&& if max_rl > 0 {
        &&& c.rls is Some
        &&& c.rls->Some_0@.len() == pend.len()
        &&& forall|i: int|
            0 <= i < pend.len() ==> #[trigger] c.rls->Some_0@[i] as int == pend[i].rl
    } else {
        c.rls is None
    }
}

} // verus!
