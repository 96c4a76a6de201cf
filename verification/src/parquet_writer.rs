//! The row-group driver: feeds one row at a time into the appender tree,
//! accounts bytes and rows, and cuts a row group whenever a threshold is
//! reached.  The emitted row groups are plain chunk buffers; writing them
//! into a Parquet file happens outside the crate.

use vstd::prelude::*;

use crate::appenders::interface::{
    app_max_rl, app_wf, flushed_leaf, leaves, payload, same_shape, tree_grew, tree_step,
    ColumnAppender,
};
use crate::appenders::records::{fresh_leaf, rl0_count, ColumnChunkData, LeafModel, PgValue, Rec};
use crate::level_index::LevelIndexList;

verus! {

/// Totals the driver has seen: rows and raw bytes in, groups out.
#[derive(Clone, Debug)]
pub struct WriterStats {
    pub rows: usize,
    pub bytes: usize,
    pub groups: usize,
}

impl Default for WriterStats {
    fn default() -> (r: Self)
        ensures
            r.rows == 0 && r.bytes == 0 && r.groups == 0,
    {
        WriterStats { rows: 0, bytes: 0, groups: 0 }
    }
}

/// The flush thresholds: raw buffered bytes, and rows per group.
#[derive(Clone, Debug)]
pub struct WriterSettings {
    pub row_group_byte_limit: usize,
    pub row_group_row_limit: usize,
}

/// One flushed row group: one chunk per leaf column, in schema order.
pub struct RowGroupData {
    pub chunks: Vec<ColumnChunkData>,
    pub rows: usize,
}

/// What one appended row produced: the raw bytes the row added to the
/// open group, warnings from soft conversions, and the row group if a
/// threshold was crossed.
pub struct RowOutcome {
    pub bytes: usize,
    pub flushed: Option<RowGroupData>,
    pub warnings: Vec<String>,
}

/// Counting of rl-zero records over an appended segment.
pub proof fn lemma_rl0_extension(h: Seq<Rec>, prelen: int)
    requires
        0 <= prelen < h.len(),
        forall|j: int| prelen <= j < h.len() ==> ((#[trigger] h[j].rl == 0) <==> j == prelen),
    ensures
        rl0_count(h) == rl0_count(h.subrange(0, prelen)) + 1,
    decreases h.len(),
{
    if h.len() - 1 == prelen {
        assert(h.drop_last() =~= h.subrange(0, prelen));
        assert(h.last() == h[prelen]);
    } else {
        assert(h.last() == h[h.len() - 1]);
        assert(h.last().rl != 0);
        assert(forall|j: int|
            prelen <= j < h.drop_last().len() ==> #[trigger] h.drop_last()[j] == h[j]);
        lemma_rl0_extension(h.drop_last(), prelen);
        assert(h.drop_last().subrange(0, prelen) =~= h.subrange(0, prelen));
    }
}

/// An unchanged history keeps its count.
pub proof fn lemma_rl0_same(h: Seq<Rec>, h2: Seq<Rec>)
    requires
        h =~= h2,
    ensures
        rl0_count(h) == rl0_count(h2),
{
}

/// Drives the appender tree row by row and cuts row groups.
pub struct ParquetRowWriter {
    appender: ColumnAppender,
    stats: WriterStats,
    settings: WriterSettings,
    current_group_bytes: usize,
    current_group_rows: usize,
}

impl ParquetRowWriter {
    /// The rows seen so far.
    pub closed spec fn spec_rows(&self) -> int {
        self.stats.rows as int
    }

    /// Rows buffered in the open group.
    pub closed spec fn spec_group_rows(&self) -> int {
        self.current_group_rows as int
    }

    /// Raw bytes buffered in the open group.
    pub closed spec fn spec_group_bytes(&self) -> int {
        self.current_group_bytes as int
    }

    /// Raw bytes seen over the whole run.
    pub closed spec fn spec_bytes(&self) -> int {
        self.stats.bytes as int
    }

    /// Row groups cut so far.
    pub closed spec fn spec_groups(&self) -> int {
        self.stats.groups as int
    }

    /// The leaf columns of the driven tree.
    pub closed spec fn spec_leaves(&self) -> Seq<LeafModel> {
        leaves(self.appender)
    }

    /// The configured thresholds.
    pub closed spec fn spec_settings(&self) -> WriterSettings {
        self.settings
    }

    /// Whether every column of the tree accepts its cell of this row:
    /// each leaf's conversion takes the decoded value, so the row lays
    /// down one payload record per leaf and the append owes success.
    pub closed spec fn accepts_row(&self, row: Seq<Option<Vec<u8>>>) -> bool {
        payload(
            self.appender,
            crate::appenders::records::PgV::Row(crate::appenders::records::cells_view(row)),
        ) is Some
    }

    /// The driver invariant: the tree is well formed, it sits at the row
    /// level, and every leaf column has opened exactly one top-level
    /// record per row — the leaves are balanced.
    pub closed spec fn wf(&self) -> bool {
        &&& app_wf(self.appender)
        &&& app_max_rl(self.appender) == 0
        &&& self.stats.rows < usize::MAX - 1
        &&& self.current_group_rows <= self.stats.rows
        &&& self.settings.row_group_row_limit >= 1
        &&& forall|i: int|
            0 <= i < leaves(self.appender).len() ==> rl0_count(
                (#[trigger] leaves(self.appender)[i]).history,
            ) == self.stats.rows as int
        &&& forall|i: int|
            0 <= i < leaves(self.appender).len() ==> (#[trigger] leaves(self.appender)[i]).mark[0]
                == (if self.stats.rows == 0 {
                usize::MAX as int
            } else {
                self.stats.rows - 1
            })
    }

    /// Every leaf is balanced: as many top-level records as rows seen.
    /// This is the leaf-balance law, read off the driver invariant.
    pub proof fn lemma_leaf_balance(&self)
        requires
            self.wf(),
        ensures
            forall|i: int|
                0 <= i < self.spec_leaves().len() ==> rl0_count(
                    (#[trigger] self.spec_leaves()[i]).history,
                ) == self.spec_rows(),
    {
    }

    /// Struct broadcast balance: at any row boundary no two leaf columns
    /// disagree on how many top-level records they have opened.
    pub proof fn lemma_struct_broadcast(&self)
        requires
            self.wf(),
        ensures
            forall|i: int, j: int|
                0 <= i < self.spec_leaves().len() && 0 <= j < self.spec_leaves().len()
                    ==> rl0_count((#[trigger] self.spec_leaves()[i]).history) == rl0_count(
                    (#[trigger] self.spec_leaves()[j]).history,
                ),
    {
    }

    /// A fresh driver over a planned appender tree.
    pub fn new(appender: ColumnAppender, settings: WriterSettings) -> (r: Self)
        requires
            app_wf(appender),
            app_max_rl(appender) == 0,
            forall|i: int|
                0 <= i < leaves(appender).len() ==> fresh_leaf(#[trigger] leaves(appender)[i]),
            settings.row_group_row_limit >= 1,
        ensures
            r.wf(),
            r.spec_rows() == 0,
            r.spec_group_rows() == 0,
            r.spec_group_bytes() == 0,
            r.spec_bytes() == 0,
            r.spec_groups() == 0,
            r.spec_leaves() == leaves(appender),
    {
        let r = ParquetRowWriter {
            appender,
            stats: WriterStats { rows: 0, bytes: 0, groups: 0 },
            settings,
            current_group_bytes: 0,
            current_group_rows: 0,
        };
        proof {
            assert forall|i: int| 0 <= i < leaves(r.appender).len() implies rl0_count(
                (#[trigger] leaves(r.appender)[i]).history,
            ) == 0 by {
                assert(fresh_leaf(leaves(r.appender)[i]));
                assert(leaves(r.appender)[i].history.len() == 0);
            }
            assert forall|i: int| 0 <= i < leaves(r.appender).len() implies (
            #[trigger] leaves(r.appender)[i]).mark[0] == usize::MAX as int by {
                assert(fresh_leaf(leaves(r.appender)[i]));
                crate::appenders::interface::lemma_wf_leaves(r.appender);
                assert(leaves(r.appender)[i].ok());
                assert(leaves(r.appender)[i].mark.len() >= 1);
            }
        }
        r
    }

    /// The totals so far: rows and raw bytes fed in, groups cut.
    pub fn get_stats(&self) -> (r: WriterStats)
        ensures
            r.rows as int == self.spec_rows(),
            r.bytes as int == self.spec_bytes(),
            r.groups as int == self.spec_groups(),
    {
        WriterStats { rows: self.stats.rows, bytes: self.stats.bytes, groups: self.stats.groups }
    }

    /// Feed one row into every column, then cut a row group if a
    /// threshold was reached: rows never split across groups, and the
    /// flush takes the row that reached the limit with it.
    pub fn write_row(self, row: Vec<Option<Vec<u8>>>) -> (r: (Self, Result<RowOutcome, String>))
        requires
            self.wf(),
        ensures
            self.spec_rows() < usize::MAX as int - 2 && self.accepts_row(row@) ==> r.1 is Ok,
            (r.1 matches Result::Ok(o) ==> {
                &&& r.0.wf()
                &&& r.0.spec_rows() == self.spec_rows() + 1
                &&& r.0.spec_bytes() == crate::appenders::generic::sat_add(
                    self.spec_bytes(),
                    o.bytes as int,
                )
                &&& (o.flushed is Some <==> (self.spec_group_rows() + 1
                    >= self.spec_settings().row_group_row_limit
                    || crate::appenders::generic::sat_add(self.spec_group_bytes(), o.bytes as int)
                    >= self.spec_settings().row_group_byte_limit))
                &&& (o.flushed is Some ==> {
                    &&& r.0.spec_group_rows() == 0
                    &&& r.0.spec_group_bytes() == 0
                    &&& r.0.spec_groups() == crate::appenders::generic::sat_add(
                        self.spec_groups(),
                        1,
                    )
                    &&& (o.flushed->0).chunks@.len() == self.spec_leaves().len()
                    &&& (o.flushed->0).rows == self.spec_group_rows() + 1
                })
                &&& (o.flushed is None ==> {
                    &&& r.0.spec_group_rows() == self.spec_group_rows() + 1
                    &&& r.0.spec_group_bytes() == crate::appenders::generic::sat_add(
                        self.spec_group_bytes(),
                        o.bytes as int,
                    )
                    &&& r.0.spec_groups() == self.spec_groups()
                    &&& r.0.spec_group_rows() < self.spec_settings().row_group_row_limit
                    &&& r.0.spec_group_bytes() < self.spec_settings().row_group_byte_limit
                })
            }),
    {
        let mut s = self;
        if s.stats.rows >= usize::MAX - 2 {
            return (
                s,
                Result::Err(
                    crate::appenders::generic::err_string("row count out of range"),
                ),
            );
        }
        let lvl = LevelIndexList::new_i(s.stats.rows);
        let mut warnings: Vec<String> = Vec::new();
        let ghost pre_leaves = leaves(s.appender);
        let ghost root = s.stats.rows;
        proof {
            crate::appenders::interface::lemma_wf_leaves(s.appender);
        }
        let value = PgValue::Row(row);
        let app = s.appender;
        let (app2, res) = app.copy_value(&lvl, &value, &mut warnings);
        s.appender = app2;
        let bytes = match res {
            Result::Err(e) => {
                proof {
                    assert(!self.accepts_row(row@));
                }
                return (s, Result::Err(e));
            },
            Result::Ok(b) => b,
        };
        proof {
            assert(tree_step(pre_leaves, leaves(s.appender), root));
            assert(tree_grew(pre_leaves, leaves(s.appender)));
            assert forall|i: int| 0 <= i < leaves(s.appender).len() implies rl0_count(
                (#[trigger] leaves(s.appender)[i]).history,
            ) == self.spec_rows() + 1 by {
                let pre = pre_leaves[i];
                let post = leaves(s.appender)[i];
                assert(crate::appenders::interface::leaf_step(pre, post, root));
                assert(pre.mark[0] != root as int);
                assert(post.history.subrange(0, pre.history.len() as int) =~= pre.history);
                lemma_rl0_extension(post.history, pre.history.len() as int);
                lemma_rl0_same(post.history.subrange(0, pre.history.len() as int), pre.history);
            }
        }
        s.stats.rows = s.stats.rows + 1;
        s.stats.bytes = crate::appenders::generic::usize_sat_add(s.stats.bytes, bytes);
        s.current_group_bytes = crate::appenders::generic::usize_sat_add(
            s.current_group_bytes,
            bytes,
        );
        s.current_group_rows = s.current_group_rows + 1;
        if s.current_group_bytes >= s.settings.row_group_byte_limit || s.current_group_rows
            >= s.settings.row_group_row_limit {
            let (s2, group) = s.flush_group();
            s = s2;
            return (
                s,
                Result::Ok(RowOutcome { bytes, flushed: Option::Some(group), warnings }),
            );
        }
        (s, Result::Ok(RowOutcome { bytes, flushed: Option::None, warnings }))
    }

    /// Drain every column buffer into one row group.  With empty buffers
    /// this writes an empty chunk per column and changes no column state.
    pub fn flush_group(self) -> (r: (Self, RowGroupData))
        requires
            self.wf(),
        ensures
            r.0.wf(),
            r.0.spec_rows() == self.spec_rows(),
            r.0.spec_group_rows() == 0,
            r.0.spec_group_bytes() == 0,
            r.0.spec_bytes() == self.spec_bytes(),
            r.0.spec_groups() == crate::appenders::generic::sat_add(self.spec_groups(), 1),
            r.1.rows == self.spec_group_rows(),
            r.1.chunks@.len() == self.spec_leaves().len(),
            forall|i: int|
                0 <= i < self.spec_leaves().len() ==> crate::appenders::records::chunk_matches(
                    #[trigger] r.1.chunks@[i],
                    self.spec_leaves()[i].pending(),
                    self.spec_leaves()[i].max_dl,
                    self.spec_leaves()[i].max_rl,
                ),
            forall|i: int|
                0 <= i < self.spec_leaves().len() ==> flushed_leaf(
                    self.spec_leaves()[i],
                    #[trigger] r.0.spec_leaves()[i],
                ),
    {
        let mut s = self;
        let mut chunks: Vec<ColumnChunkData> = Vec::new();
        let ghost pre_leaves = leaves(s.appender);
        let app = s.appender;
        let app2 = app.write_columns(&mut chunks);
        s.appender = app2;
        let group_rows = s.current_group_rows;
        s.current_group_bytes = 0;
        s.current_group_rows = 0;
        s.stats.groups = crate::appenders::generic::usize_sat_add(s.stats.groups, 1);
        proof {
            assert forall|i: int| 0 <= i < leaves(s.appender).len() implies rl0_count(
                (#[trigger] leaves(s.appender)[i]).history,
            ) == s.stats.rows as int by {
                assert(flushed_leaf(pre_leaves[i], leaves(s.appender)[i]));
                lemma_rl0_same(leaves(s.appender)[i].history, pre_leaves[i].history);
            }
            assert forall|i: int| 0 <= i < leaves(s.appender).len() implies (
            #[trigger] leaves(s.appender)[i]).mark[0] == (if s.stats.rows == 0 {
                usize::MAX as int
            } else {
                s.stats.rows - 1
            }) by {
                assert(flushed_leaf(pre_leaves[i], leaves(s.appender)[i]));
            }
            assert forall|i: int|
                0 <= i < pre_leaves.len() implies crate::appenders::records::chunk_matches(
                #[trigger] chunks@[i],
                pre_leaves[i].pending(),
                pre_leaves[i].max_dl,
                pre_leaves[i].max_rl,
            ) by {
                assert(crate::appenders::records::chunk_matches(
                    chunks@[0 + i],
                    pre_leaves[i].pending(),
                    pre_leaves[i].max_dl,
                    pre_leaves[i].max_rl,
                ));
            }
        }
        (s, RowGroupData { chunks, rows: group_rows })
    }

    /// Flush the final row group and report the totals.  A driver that
    /// saw no rows still produces one valid, empty row group.
    pub fn close(self) -> (r: (WriterStats, RowGroupData))
        requires
            self.wf(),
        ensures
            r.0.rows as int == self.spec_rows(),
            r.0.bytes as int == self.spec_bytes(),
            r.0.groups as int == crate::appenders::generic::sat_add(self.spec_groups(), 1),
            r.1.rows == self.spec_group_rows(),
            r.1.chunks@.len() == self.spec_leaves().len(),
            forall|i: int|
                0 <= i < self.spec_leaves().len() ==> crate::appenders::records::chunk_matches(
                    #[trigger] r.1.chunks@[i],
                    self.spec_leaves()[i].pending(),
                    self.spec_leaves()[i].max_dl,
                    self.spec_leaves()[i].max_rl,
                ),
    {
        let (s2, group) = self.flush_group();
        (s2.stats, group)
    }
}

/// A flush over an already empty buffer changes nothing: the chunk has
/// no values and no levels, and the column state stays as it was.
pub proof fn lemma_flush_idempotent(pre: LeafModel, post: LeafModel, c: ColumnChunkData)
    requires
        pre.ok(),
        pre.flushed == pre.history.len(),
        flushed_leaf(pre, post),
        crate::appenders::records::chunk_matches(c, pre.pending(), pre.max_dl, pre.max_rl),
    ensures
        post == pre,
        c.values@.len() == 0,
        c.dls matches Option::Some(d) ==> d@.len() == 0,
        c.rls matches Option::Some(x) ==> x@.len() == 0,
{
    assert(pre.pending() =~= Seq::<Rec>::empty());
    assert(crate::appenders::records::vals_of(pre.pending()) =~= Seq::<
        crate::appenders::records::PqVal,
    >::empty());
}

} // verus!
