//! The fixed-width byte-array column appender: every value occupies the
//! same number of bytes in one contiguous buffer.

use vstd::prelude::*;

use crate::appenders::byte_array::BRes;
use crate::appenders::generic::{err_string, sat_add, usize_sat_add};
use crate::appenders::records::{
    appended1, chunk_matches, lemma_skip_push, lemma_vals_push, vals_of, ChunkValues,
    ColumnChunkData, LeafModel, PgV, PgValue, PqVal, Rec,
};
use crate::datatypes::interval::{
    interval_days_fit, interval_fixed, interval_to_fixed, parse_interval, PgInterval,
};
use crate::datatypes::utils::{be_i32, be_i64, copy_range};
use crate::level_index::{LevelIndexList, LevelIndexState};

verus! {

/// The conversion a fixed-width column applies.
pub enum FixedConv {
    /// The wire bytes unchanged, checked against the column width:
    /// `uuid` as sixteen bytes, `macaddr` as six.
    Pass,
    /// `interval` carried into the twelve-byte Parquet INTERVAL form.
    IntervalFixed,
    /// A half-precision float element, byte-swapped to little endian.
    F16LE,
}

/// Structural fit between a fixed conversion and the column width.
pub open spec fn fixed_conv_wf(c: FixedConv, width: int) -> bool {
    match c {
        FixedConv::Pass => width >= 1,
        FixedConv::IntervalFixed => width == 12,
        FixedConv::F16LE => width == 2,
    }
}

/// The meaning of a fixed conversion.
pub open spec fn fixed_conv_res(c: FixedConv, v: PgV, width: int) -> BRes {
    match c {
        FixedConv::Pass => match v {
            PgV::Raw(b) => if b.len() == width {
                BRes::BVal(b)
            } else {
                BRes::BErr
            },
            _ => BRes::BErr,
        },
        FixedConv::IntervalFixed => match v {
            PgV::Raw(b) => if b.len() == 16 && interval_days_fit(be_i32(b.skip(8)), be_i64(b)) {
                BRes::BVal(interval_fixed(be_i32(b.skip(12)), be_i32(b.skip(8)), be_i64(b)))
            } else {
                BRes::BErr
            },
            _ => BRes::BErr,
        },
        FixedConv::F16LE => match v {
            PgV::Raw(b) => if b.len() == 2 {
                BRes::BVal(seq![b[1], b[0]])
            } else {
                BRes::BErr
            },
            _ => BRes::BErr,
        },
    }
}

/// A produced value always fills the column width.
pub proof fn lemma_fixed_conv_width(c: FixedConv, v: PgV, width: int)
    requires
        fixed_conv_wf(c, width),
        fixed_conv_res(c, v, width) is BVal,
    ensures
        fixed_conv_res(c, v, width)->BVal_0.len() == width,
{
}

/// Apply a fixed conversion, appending exactly the column width to `buf`.
pub fn fixed_conv_apply(c: &FixedConv, v: &PgValue, width: usize, buf: &mut Vec<u8>) -> (r: Result<
    (),
    String,
>)
    requires
        fixed_conv_wf(*c, width as int),
    ensures
        match r {
            Result::Ok(_) => {
                &&& fixed_conv_res(*c, v@, width as int) matches BRes::BVal(s) && final(buf)@
                    == old(buf)@ + s
            },
            Result::Err(_) => fixed_conv_res(*c, v@, width as int) is BErr && final(buf)@ == old(
                buf,
            )@,
        },
{
    match (c, v) {
        (FixedConv::Pass, PgValue::Raw(b)) => {
            if b.len() == width {
                let n = b.len();
                let mut i: usize = 0;
                while i < n
                    invariant
                        i <= n,
                        n == b@.len(),
                        buf@ =~= old(buf)@ + b@.subrange(0, i as int),
                    decreases n - i,
                {
                    buf.push(b[i]);
                    i = i + 1;
                }
                proof {
                    assert(buf@ =~= old(buf)@ + b@);
                }
                Result::Ok(())
            } else {
                Result::Err(err_string("unexpected width of a fixed-size value"))
            }
        },
        (FixedConv::IntervalFixed, PgValue::Raw(b)) => {
            match parse_interval(b.as_slice()) {
                Result::Err(e) => Result::Err(e),
                Result::Ok(iv) => {
                    match interval_to_fixed(&iv, buf) {
                        Result::Err(e) => Result::Err(e),
                        Result::Ok(_) => Result::Ok(()),
                    }
                },
            }
        },
        (FixedConv::F16LE, PgValue::Raw(b)) => {
            if b.len() == 2 {
                buf.push(b[1]);
                buf.push(b[0]);
                proof {
                    assert(buf@ =~= old(buf)@ + seq![b@[1], b@[0]]);
                }
                Result::Ok(())
            } else {
                Result::Err(err_string("unexpected width of a half-precision value"))
            }
        },
        _ => Result::Err(err_string("value does not fit the planned column")),
    }
}

/// Buffers fixed-width byte values back to back in one contiguous buffer;
/// one leaf of the appender tree.
pub struct FixedByteArrayColumnAppender {
    max_dl: i16,
    max_rl: i16,
    nullable: bool,
    length: usize,
    byte_buffer: Vec<u8>,
    dls: Vec<i16>,
    rls: Vec<i16>,
    repetition_index: LevelIndexState,
    conversion: FixedConv,
    history: Ghost<Seq<Rec>>,
    flushed: Ghost<int>,
}

impl FixedByteArrayColumnAppender {
    /// The column as the model sees it.
    pub closed spec fn leaf(&self) -> LeafModel {
        LeafModel {
            max_dl: self.max_dl as int,
            max_rl: self.max_rl as int,
            history: self.history@,
            flushed: self.flushed@,
            mark: self.repetition_index@,
        }
    }

    /// The conversion this column applies.
    pub closed spec fn conv(&self) -> FixedConv {
        self.conversion
    }

    /// The common width of all buffered values.
    pub closed spec fn spec_length(&self) -> int {
        self.length as int
    }

    pub closed spec fn wf(&self) -> bool {
        &&& self.leaf().ok()
        &&& self.repetition_index.wf()
        &&& fixed_conv_wf(self.conversion, self.length as int)
        &&& (self.history@.len() == 0 ==> forall|i: int|
            0 <= i < self.repetition_index@.len() ==> self.repetition_index@[i] == usize::MAX)
        &&& self.byte_buffer@.len() == self.length * vals_of(self.leaf().pending()).len()
        &&& (forall|i: int|
            0 <= i < vals_of(self.leaf().pending()).len() ==> #[trigger] vals_of(
                self.leaf().pending(),
            )[i] == PqVal::Fixed(
                self.byte_buffer@.subrange(i * self.length, (i + 1) * self.length),
            ))
        &&& (if self.max_dl > 0 {
            &&& self.dls@.len() == self.leaf().pending().len()
            &&& forall|i: int|
                0 <= i < self.dls@.len() ==> #[trigger] self.dls@[i] as int == self.leaf().pending()[i].dl
        } else {
            self.dls@.len() == 0
        })
        &&& (if self.max_rl > 0 {
            &&& self.rls@.len() == self.leaf().pending().len()
            &&& forall|i: int|
                0 <= i < self.rls@.len() ==> #[trigger] self.rls@[i] as int == self.leaf().pending()[i].rl
        } else {
            self.rls@.len() == 0
        })
    }

    /// A well-formed appender has a well-formed leaf model.
    pub proof fn lemma_wf_leaf(&self)
        requires
            self.wf(),
        ensures
            self.leaf().ok(),
    {
    }

    /// A fresh fixed-width appender.
    pub fn new(max_dl: i16, max_rl: i16, length: usize, nullable: bool, f_copy: FixedConv) -> (r:
        Self)
        requires
            0 <= max_dl,
            0 <= max_rl < 0x7fff,
            fixed_conv_wf(f_copy, length as int),
        ensures
            r.wf(),
            r.conv() == f_copy,
            r.spec_length() == length,
            r.leaf().max_dl == max_dl,
            r.leaf().max_rl == max_rl,
            r.leaf().history =~= Seq::<Rec>::empty(),
            r.leaf().flushed == 0,
            crate::appenders::records::fresh_leaf(r.leaf()),
    {
        let r = FixedByteArrayColumnAppender {
            max_dl,
            max_rl,
            nullable,
            length,
            byte_buffer: Vec::new(),
            dls: Vec::new(),
            rls: Vec::new(),
            repetition_index: LevelIndexState::new(max_rl),
            conversion: f_copy,
            history: Ghost(Seq::empty()),
            flushed: Ghost(0),
        };
        proof {
            assert(r.leaf().pending() =~= Seq::<Rec>::empty());
        }
        r
    }

    pub fn max_dl(&self) -> (r: i16)
        ensures
            r as int == self.leaf().max_dl,
    {
        self.max_dl
    }

    pub fn max_rl(&self) -> (r: i16)
        ensures
            r as int == self.leaf().max_rl,
    {
        self.max_rl
    }

    /// Convert one value and buffer the resulting record.
    pub fn append(self, repetition_index: &LevelIndexList, value: &PgValue) -> (r: (
        Self,
        Result<usize, String>,
    ))
        requires
            self.wf(),
            repetition_index.wf(),
            repetition_index@.len() == self.leaf().max_rl + 1,
        ensures
            r.0.wf(),
            r.0.conv() == self.conv(),
            r.0.spec_length() == self.spec_length(),
            r.1 is Ok <==> fixed_conv_res(self.conv(), value@, self.spec_length()) is BVal,
            fixed_conv_res(self.conv(), value@, self.spec_length()) is BErr ==> r.0.leaf()
                == self.leaf(),
            (fixed_conv_res(self.conv(), value@, self.spec_length()) matches BRes::BVal(s) ==> {
                &&& appended1(
                    self.leaf(),
                    r.0.leaf(),
                    repetition_index@,
                    self.leaf().max_dl,
                    Option::Some(PqVal::Fixed(s)),
                )
                &&& r.1 == Result::<usize, String>::Ok(
                    (sat_add(
                        sat_add(
                            self.spec_length(),
                            if self.leaf().max_dl > 0 {
                                2int
                            } else {
                                0int
                            },
                        ),
                        if self.leaf().max_rl > 0 {
                            2int
                        } else {
                            0int
                        },
                    )) as usize,
                )
            }),
    {
        let mut s = self;
        let ghost pre = s.leaf();
        let ghost pre_buffer = s.byte_buffer@;
        let index = s.byte_buffer.len();
        let cr = fixed_conv_apply(&s.conversion, value, s.length, &mut s.byte_buffer);
        match cr {
            Result::Err(e) => (s, Result::Err(e)),
            Result::Ok(_) => {
                let ghost bytes_v = s.byte_buffer@.skip(index as int);
                proof {
                    lemma_fixed_conv_width(s.conversion, value@, s.length as int);
                    assert(index == pre_buffer.len());
                    match fixed_conv_res(s.conversion, value@, s.length as int) {
                        BRes::BVal(sv) => {
                            assert(s.byte_buffer@ == pre_buffer + sv);
                            assert(bytes_v =~= sv);
                        },
                        _ => {},
                    }
                }
                if s.max_dl > 0 {
                    s.dls.push(s.max_dl);
                }
                let rl = s.repetition_index.copy_and_diff(repetition_index);
                if s.max_rl > 0 {
                    s.rls.push(rl);
                }
                let ghost rec = Rec {
                    dl: s.max_dl as int,
                    rl: rl as int,
                    val: Option::Some(PqVal::Fixed(bytes_v)),
                };
                proof {
                    s.history@ = pre.history.push(rec);
                    lemma_skip_push(pre.history, rec, pre.flushed);
                    lemma_vals_push(pre.pending(), rec);
                    assert(s.leaf().pending() =~= pre.pending().push(rec));
                    if pre.history.len() == 0 {
                        crate::level_index::lemma_first_diff_head(repetition_index@, pre.mark);
                    }
                    let k = vals_of(pre.pending()).len() as int;
                    let l = s.length as int;
                    assert(vals_of(s.leaf().pending()) =~= vals_of(pre.pending()).push(
                        PqVal::Fixed(bytes_v),
                    ));
                    assert(bytes_v.len() == l);
                    assert(s.byte_buffer@.len() == l * (k + 1)) by (nonlinear_arith)
                        requires
                            s.byte_buffer@.len() == pre_buffer.len() + l,
                            pre_buffer.len() == l * k,
                    ;
                    assert forall|i: int| 0 <= i < k + 1 implies #[trigger] vals_of(
                        s.leaf().pending(),
                    )[i] == PqVal::Fixed(s.byte_buffer@.subrange(i * l, (i + 1) * l)) by {
                        if i < k {
                            assert(vals_of(pre.pending())[i] == PqVal::Fixed(
                                pre_buffer.subrange(i * l, (i + 1) * l),
                            ));
                            assert(0 <= i * l && i * l <= (i + 1) * l && (i + 1) * l
                                <= pre_buffer.len()) by (nonlinear_arith)
                                requires
                                    0 <= i < k,
                                    l >= 1,
                                    pre_buffer.len() == l * k,
                            ;
                            assert(s.byte_buffer@.subrange(i * l, (i + 1) * l)
                                =~= pre_buffer.subrange(i * l, (i + 1) * l));
                        } else {
                            assert(i == k);
                            assert(k * l == pre_buffer.len()) by (nonlinear_arith)
                                requires
                                    pre_buffer.len() == l * k,
                            ;
                            assert((k + 1) * l == pre_buffer.len() + l) by (nonlinear_arith)
                                requires
                                    pre_buffer.len() == l * k,
                            ;
                            assert(s.byte_buffer@.subrange(i * l, (i + 1) * l) =~= bytes_v);
                        }
                    }
                }
                let sz1 = usize_sat_add(
                    s.length,
                    if s.max_dl > 0 {
                        2
                    } else {
                        0
                    },
                );
                let sz2 = usize_sat_add(
                    sz1,
                    if s.max_rl > 0 {
                        2
                    } else {
                        0
                    },
                );
                (s, Result::Ok(sz2))
            },
        }
    }

    /// Append every value of a batch at the same position.
    pub fn append_array(self, repetition_index1: &LevelIndexList, values: &Vec<PgValue>) -> (r: (
        Self,
        Result<usize, String>,
    ))
        requires
            self.wf(),
            repetition_index1.wf(),
            repetition_index1@.len() == self.leaf().max_rl + 1,
        ensures
            r.0.wf(),
            r.0.conv() == self.conv(),
            r.0.spec_length() == self.spec_length(),
            r.1 is Ok <==> (forall|k: int|
                0 <= k < values@.len() ==> fixed_conv_res(
                    self.conv(),
                    (#[trigger] values@[k])@,
                    self.spec_length(),
                ) is BVal),
            r.1 is Ok ==> {
                &&& r.0.leaf().history.len() == self.leaf().history.len() + values@.len()
                &&& r.0.leaf().history.subrange(0, self.leaf().history.len() as int)
                    == self.leaf().history
                &&& forall|k: int|
                    0 <= k < values@.len() ==> {
                        &&& (#[trigger] r.0.leaf().history[self.leaf().history.len() + k]).dl
                            == self.leaf().max_dl
                        &&& r.0.leaf().history[self.leaf().history.len() + k].val
                            == Option::Some(
                            PqVal::Fixed(
                                fixed_conv_res(
                                    self.conv(),
                                    values@[k]@,
                                    self.spec_length(),
                                )->BVal_0,
                            ),
                        )
                    }
            },
    {
        let mut s = self;
        let mut total: usize = 0;
        let n = values.len();
        let mut i: usize = 0;
        while i < n
            invariant
                i <= n,
                n == values@.len(),
                s.wf(),
                s.conv() == self.conv(),
                s.spec_length() == self.spec_length(),
                s.leaf().max_dl == self.leaf().max_dl,
                s.leaf().max_rl == self.leaf().max_rl,
                s.leaf().history.len() == self.leaf().history.len() + i,
                s.leaf().history.subrange(0, self.leaf().history.len() as int)
                    =~= self.leaf().history,
                forall|k: int|
                    0 <= k < i ==> fixed_conv_res(
                        self.conv(),
                        (#[trigger] values@[k])@,
                        self.spec_length(),
                    ) is BVal,
                forall|k: int|
                    0 <= k < i ==> {
                        &&& (#[trigger] s.leaf().history[self.leaf().history.len() + k]).dl
                            == self.leaf().max_dl
                        &&& s.leaf().history[self.leaf().history.len() + k].val == Option::Some(
                            PqVal::Fixed(
                                fixed_conv_res(
                                    self.conv(),
                                    values@[k]@,
                                    self.spec_length(),
                                )->BVal_0,
                            ),
                        )
                    },
                repetition_index1.wf(),
                repetition_index1@.len() == self.leaf().max_rl + 1,
            decreases n - i,
        {
            let v = &values[i];
            let ghost pre_hist = s.leaf().history;
            let (s2, res) = s.append(repetition_index1, v);
            proof {
                assert(v@ == values@[i as int]@);
            }
            s = s2;
            match res {
                Result::Ok(sz) => {
                    total = usize_sat_add(total, sz);
                    proof {
                        assert(s.leaf().history.subrange(0, self.leaf().history.len() as int)
                            =~= pre_hist.subrange(0, self.leaf().history.len() as int));
                    }
                },
                Result::Err(e) => {
                    proof {
                        assert(!(fixed_conv_res(
                            self.conv(),
                            values@[i as int]@,
                            self.spec_length(),
                        ) is BVal));
                    }
                    return (s, Result::Err(e));
                },
            }
            i = i + 1;
        }
        (s, Result::Ok(total))
    }

    /// Buffer a NULL marker at the given definition level.
    pub fn write_null(self, repetition_index: &LevelIndexList, level: i16) -> (r: (Self, usize))
        requires
            self.wf(),
            repetition_index.wf(),
            repetition_index@.len() == self.leaf().max_rl + 1,
            0 <= level < self.leaf().max_dl,
        ensures
            r.0.wf(),
            r.0.conv() == self.conv(),
            r.0.spec_length() == self.spec_length(),
            appended1(self.leaf(), r.0.leaf(), repetition_index@, level as int, Option::None),
            r.1 as int == if self.leaf().max_rl > 0 {
                4int
            } else {
                2int
            },
    {
        let mut s = self;
        let ghost pre = s.leaf();
        s.dls.push(level);
        let rl = s.repetition_index.copy_and_diff(repetition_index);
        if s.max_rl > 0 {
            s.rls.push(rl);
        }
        let ghost rec = Rec { dl: level as int, rl: rl as int, val: Option::None };
        proof {
            s.history@ = pre.history.push(rec);
            lemma_skip_push(pre.history, rec, pre.flushed);
            lemma_vals_push(pre.pending(), rec);
            assert(s.leaf().pending() =~= pre.pending().push(rec));
            assert(vals_of(s.leaf().pending()) =~= vals_of(pre.pending()));
            if pre.history.len() == 0 {
                crate::level_index::lemma_first_diff_head(repetition_index@, pre.mark);
            }
        }
        let sz: usize = if s.max_rl > 0 {
            4
        } else {
            2
        };
        (s, sz)
    }

    /// Cut the buffer into one fixed-width byte string per value and hand
    /// everything out as a column chunk.
    pub fn write_column(self) -> (r: (Self, ColumnChunkData))
        requires
            self.wf(),
        ensures
            r.0.wf(),
            r.0.conv() == self.conv(),
            r.0.spec_length() == self.spec_length(),
            r.0.leaf().max_dl == self.leaf().max_dl,
            r.0.leaf().max_rl == self.leaf().max_rl,
            r.0.leaf().history == self.leaf().history,
            r.0.leaf().mark == self.leaf().mark,
            r.0.leaf().flushed == self.leaf().history.len(),
            chunk_matches(r.1, self.leaf().pending(), self.leaf().max_dl, self.leaf().max_rl),
    {
        let mut s = self;
        let ghost k = vals_of(self.leaf().pending()).len() as int;
        let ghost l = self.length as int;
        let blen = s.byte_buffer.len();
        let n: usize = if s.length > 0 {
            blen / s.length
        } else {
            0
        };
        proof {
            assert(s.byte_buffer@.len() == l * k);
            assert(l >= 1);
            assert((l * k) as int / l == k) by (nonlinear_arith)
                requires
                    l >= 1,
                    k >= 0,
            ;
        }
        let mut column: Vec<Vec<u8>> = Vec::new();
        let mut i: usize = 0;
        while i < n
            invariant
                i <= n,
                n as int == k,
                l == s.length as int,
                l >= 1,
                s == self,
                self.wf(),
                s.byte_buffer@.len() == l * k,
                blen == s.byte_buffer@.len(),
                column@.len() == i,
                forall|j: int|
                    0 <= j < i ==> #[trigger] column@[j]@ == s.byte_buffer@.subrange(
                        j * l,
                        (j + 1) * l,
                    ),
            decreases n - i,
        {
            proof {
                assert(0 <= i * l && i * l + l <= l * k) by (nonlinear_arith)
                    requires
                        0 <= i < k,
                        l >= 1,
                ;
                assert((i + 1) * l == i * l + l) by (nonlinear_arith);
                assert(i * l <= usize::MAX) by (nonlinear_arith)
                    requires
                        0 <= i * l,
                        i * l + l <= l * k,
                        l * k == s.byte_buffer@.len(),
                        s.byte_buffer@.len() <= usize::MAX,
                ;
            }
            let start: usize = i * s.length;
            proof {
                assert(start as int == i as int * l);
                assert(start as int + l <= s.byte_buffer@.len());
            }
            let piece = copy_range(s.byte_buffer.as_slice(), start, s.length);
            column.push(piece);
            i = i + 1;
        }
        let vals = ChunkValues::Fixed(s.length, column);
        s.byte_buffer = Vec::new();
        let dls_out: Option<Vec<i16>> = if s.max_dl > 0 {
            let d = s.dls;
            s.dls = Vec::new();
            Option::Some(d)
        } else {
            Option::None
        };
        let rls_out: Option<Vec<i16>> = if s.max_rl > 0 {
            let x = s.rls;
            s.rls = Vec::new();
            Option::Some(x)
        } else {
            Option::None
        };
        proof {
            s.flushed@ = s.history@.len() as int;
            assert(s.leaf().pending() =~= Seq::<Rec>::empty());
            assert(vals_of(s.leaf().pending()) =~= Seq::<PqVal>::empty());
            assert(vals@ =~= vals_of(self.leaf().pending()));
            assert(s.byte_buffer@.len() == s.length * vals_of(s.leaf().pending()).len());
        }
        (s, ColumnChunkData { values: vals, dls: dls_out, rls: rls_out })
    }
}

} // verus!
