//! The appender tree: the recursive composition of column appenders that
//! distributes one row into every leaf column, computing Dremel levels on
//! the way down.

use vstd::prelude::*;

use crate::appenders::byte_array::ByteArrayColumnAppender;
use crate::appenders::fixed_byte_array::FixedByteArrayColumnAppender;
use crate::appenders::generic::GenericColumnAppender;
use crate::appenders::records::{ColumnChunkData, LeafModel, PgV, PgValue, PqVal};
use crate::level_index::LevelIndexList;

verus! {

/// One node of the appender tree.
pub enum ColumnAppender {
    /// A primitive leaf.
    Generic(GenericColumnAppender),
    /// A variable-length byte leaf.
    Bytes(ByteArrayColumnAppender),
    /// A fixed-width byte leaf.
    Fixed(FixedByteArrayColumnAppender),
    /// A LIST: one child repetition per element.
    Arr(Box<ArrayColumnAppender>),
    /// A struct: the same value broadcast to every child.
    Merged(DynamicMergedAppender),
    /// Extraction of one cell out of a row or pseudo-row.
    Field(Box<BasicPgRowColumnAppender>),
    /// Decoding of a structured wire value into a pseudo-row.
    Decode(Box<DecodeAppender>),
}

/// Where a LIST appender's elements come from.
pub enum ArraySource {
    /// A PostgreSQL array: elements are optional wire byte strings.
    PgArray,
    /// The dimension sidecar of a PostgreSQL array.
    PgArrayDims,
    /// The lower-bound sidecar of a PostgreSQL array.
    PgArrayLowerBounds,
    /// A pgvector dense vector: elements are float bit patterns.
    VectorF32,
    /// A pgvector half-precision vector: elements are two wire bytes.
    VectorF16,
    /// A pgvector sparse vector: elements are one-based pairs.
    SparseVec,
}

/// Wraps an inner appender; emits one inner record per element, and the
/// Dremel null or empty marker where the whole value is absent or empty.
pub struct ArrayColumnAppender {
    pub inner: ColumnAppender,
    pub dl: i16,
    pub rl: i16,
    pub allow_null: bool,
    pub allow_element_null: bool,
    pub source: ArraySource,
    /// Whether flattening a multidimensional array deserves a warning.
    pub warn_multidim: bool,
    /// Whether that warning has already been given.
    pub warned_multidim: bool,
    /// The dotted column path, for the warning text.
    pub path: String,
}

/// Broadcasts one value to an ordered list of children.
pub struct DynamicMergedAppender {
    pub columns: Vec<ColumnAppender>,
    pub max_dl: i16,
    pub max_rl: i16,
}

/// Extracts column `column_i` of a row and hands it down, or a NULL
/// marker when the cell is absent.
pub struct BasicPgRowColumnAppender {
    pub column_i: usize,
    pub appender: ColumnAppender,
    pub max_dl: i16,
    pub max_rl: i16,
}

/// What a decode node parses its raw value into.
pub enum StructDecoder {
    /// A range: pseudo-row of lower, upper, and the three flags.
    RangeDecoder,
    /// A composite with the given declared field count.
    RecordDecoder(usize),
}

/// Parses a structured wire value and hands the pseudo-row down.
pub struct DecodeAppender {
    pub decoder: StructDecoder,
    pub inner: ColumnAppender,
    pub max_dl: i16,
    pub max_rl: i16,
}

/// Height of the tree, the termination measure of its traversals.
pub open spec fn app_height(a: ColumnAppender) -> nat
    decreases a,
{
    match a {
        ColumnAppender::Generic(_) => 0,
        ColumnAppender::Bytes(_) => 0,
        ColumnAppender::Fixed(_) => 0,
        ColumnAppender::Arr(b) => app_height(b.inner) + 1,
        ColumnAppender::Merged(m) => apps_height(m.columns@) + 1,
        ColumnAppender::Field(f) => app_height(f.appender) + 1,
        ColumnAppender::Decode(d) => app_height(d.inner) + 1,
    }
}

pub open spec fn apps_height(s: Seq<ColumnAppender>) -> nat
    decreases s,
{
    if s.len() == 0 {
        0
    } else if apps_height(s.drop_last()) >= app_height(s.last()) {
        apps_height(s.drop_last())
    } else {
        app_height(s.last())
    }
}

pub proof fn lemma_apps_height_elem(s: Seq<ColumnAppender>, i: int)
    requires
        0 <= i < s.len(),
    ensures
        app_height(s[i]) <= apps_height(s),
    decreases s,
{
    if i == s.len() - 1 {
        assert(s[i] == s.last());
    } else {
        lemma_apps_height_elem(s.drop_last(), i);
        assert(s.drop_last()[i] == s[i]);
    }
}

pub proof fn lemma_apps_height_eq(a: Seq<ColumnAppender>, b: Seq<ColumnAppender>)
    requires
        a.len() == b.len(),
        forall|j: int| 0 <= j < a.len() ==> #[trigger] app_height(a[j]) == app_height(b[j]),
    ensures
        apps_height(a) == apps_height(b),
    decreases a,
{
    if a.len() > 0 {
        lemma_apps_height_eq(a.drop_last(), b.drop_last());
        assert(app_height(a.last()) == app_height(b.last()));
    }
}

/// The leaf columns of the tree, left to right.
pub open spec fn leaves(a: ColumnAppender) -> Seq<LeafModel>
    decreases a,
{
    match a {
        ColumnAppender::Generic(g) => seq![g.leaf()],
        ColumnAppender::Bytes(b) => seq![b.leaf()],
        ColumnAppender::Fixed(f) => seq![f.leaf()],
        ColumnAppender::Arr(b) => leaves(b.inner),
        ColumnAppender::Merged(m) => leaves_seq(m.columns@),
        ColumnAppender::Field(f) => leaves(f.appender),
        ColumnAppender::Decode(d) => leaves(d.inner),
    }
}

pub open spec fn leaves_seq(s: Seq<ColumnAppender>) -> Seq<LeafModel>
    decreases s,
{
    if s.len() == 0 {
        Seq::empty()
    } else {
        leaves(s[0]) + leaves_seq(s.skip(1))
    }
}

/// Maximal definition level of the node itself.
pub open spec fn app_max_dl(a: ColumnAppender) -> int {
    match a {
        ColumnAppender::Generic(g) => g.leaf().max_dl,
        ColumnAppender::Bytes(b) => b.leaf().max_dl,
        ColumnAppender::Fixed(f) => f.leaf().max_dl,
        ColumnAppender::Arr(b) => b.dl as int,
        ColumnAppender::Merged(m) => m.max_dl as int,
        ColumnAppender::Field(f) => f.max_dl as int,
        ColumnAppender::Decode(d) => d.max_dl as int,
    }
}

/// Maximal repetition level of the node itself.
pub open spec fn app_max_rl(a: ColumnAppender) -> int {
    match a {
        ColumnAppender::Generic(g) => g.leaf().max_rl,
        ColumnAppender::Bytes(b) => b.leaf().max_rl,
        ColumnAppender::Fixed(f) => f.leaf().max_rl,
        ColumnAppender::Arr(b) => b.rl as int,
        ColumnAppender::Merged(m) => m.max_rl as int,
        ColumnAppender::Field(f) => f.max_rl as int,
        ColumnAppender::Decode(d) => d.max_rl as int,
    }
}

/// The definition levels a NULL marker may carry into this node.
pub open spec fn null_bound(a: ColumnAppender) -> int {
    match a {
        ColumnAppender::Generic(g) => g.leaf().max_dl,
        ColumnAppender::Bytes(b) => b.leaf().max_dl,
        ColumnAppender::Fixed(f) => f.leaf().max_dl,
        ColumnAppender::Arr(b) => b.dl + 1,
        ColumnAppender::Merged(m) => m.max_dl as int,
        ColumnAppender::Field(f) => f.max_dl as int,
        ColumnAppender::Decode(d) => d.max_dl as int,
    }
}

/// Well-formedness of the tree.
pub open spec fn app_wf(a: ColumnAppender) -> bool
    decreases a,
{
    match a {
        ColumnAppender::Generic(g) => g.wf(),
        ColumnAppender::Bytes(b) => b.wf(),
        ColumnAppender::Fixed(f) => f.wf(),
        ColumnAppender::Arr(b) => {
            &&& app_wf(b.inner)
            &&& b.rl >= 0
            &&& b.rl < 0x7ffe
            &&& b.dl >= if b.allow_null {
                1int
            } else {
                0int
            }
            &&& b.dl < 0x7ffe
            &&& app_max_rl(b.inner) == b.rl + 1
            &&& app_max_dl(b.inner) == b.dl + 1 + if b.allow_element_null {
                1int
            } else {
                0int
            }
        },
        ColumnAppender::Merged(m) => {
            &&& m.max_dl >= 0
            &&& 0 <= m.max_rl < 0x7fff
            &&& forall|i: int| 0 <= i < m.columns@.len() ==> app_wf(#[trigger] m.columns@[i])
            &&& forall|i: int|
                0 <= i < m.columns@.len() ==> app_max_rl(#[trigger] m.columns@[i])
                    == m.max_rl as int
            &&& forall|i: int|
                0 <= i < m.columns@.len() ==> app_max_dl(#[trigger] m.columns@[i])
                    >= m.max_dl as int
        },
        ColumnAppender::Field(f) => {
            &&& app_wf(f.appender)
            &&& app_max_dl(f.appender) >= 1
            &&& f.max_dl as int == app_max_dl(f.appender)
            &&& f.max_rl as int == app_max_rl(f.appender)
        },
        ColumnAppender::Decode(d) => {
            &&& app_wf(d.inner)
            &&& d.max_dl as int == app_max_dl(d.inner)
            &&& d.max_rl as int == app_max_rl(d.inner)
        },
    }
}

/// In a well-formed tree every leaf is well formed, sits at or below the
/// node's own levels, and a NULL bound fits every leaf.
pub proof fn lemma_wf_leaves(a: ColumnAppender)
    requires
        app_wf(a),
    ensures
        forall|i: int|
            0 <= i < leaves(a).len() ==> {
                &&& (#[trigger] leaves(a)[i]).ok()
                &&& leaves(a)[i].max_dl >= app_max_dl(a)
                &&& leaves(a)[i].max_dl >= null_bound(a)
                &&& leaves(a)[i].max_rl >= app_max_rl(a)
            },
        app_max_dl(a) >= 0,
        app_max_rl(a) >= 0,
        null_bound(a) >= app_max_dl(a),
    decreases a,
{
    match a {
        ColumnAppender::Generic(g) => {
            g.lemma_wf_leaf();
            assert(leaves(a)[0] == g.leaf());
        },
        ColumnAppender::Bytes(b) => {
            b.lemma_wf_leaf();
            assert(leaves(a)[0] == b.leaf());
        },
        ColumnAppender::Fixed(f) => {
            f.lemma_wf_leaf();
            assert(leaves(a)[0] == f.leaf());
        },
        ColumnAppender::Arr(b) => {
            lemma_wf_leaves(b.inner);
            assert(forall|i: int|
                0 <= i < leaves(a).len() ==> #[trigger] leaves(a)[i] == leaves(b.inner)[i]);
        },
        ColumnAppender::Merged(m) => {
            lemma_wf_leaves_seq(m.columns@, m.max_dl as int, m.max_rl as int);
            assert(forall|i: int|
                0 <= i < leaves(a).len() ==> #[trigger] leaves(a)[i] == leaves_seq(m.columns@)[i]);
        },
        ColumnAppender::Field(f) => {
            lemma_wf_leaves(f.appender);
            assert(forall|i: int|
                0 <= i < leaves(a).len() ==> #[trigger] leaves(a)[i] == leaves(f.appender)[i]);
        },
        ColumnAppender::Decode(d) => {
            lemma_wf_leaves(d.inner);
            assert(forall|i: int|
                0 <= i < leaves(a).len() ==> #[trigger] leaves(a)[i] == leaves(d.inner)[i]);
        },
    }
}

pub proof fn lemma_wf_leaves_seq(s: Seq<ColumnAppender>, dl: int, rl: int)
    requires
        forall|i: int| 0 <= i < s.len() ==> app_wf(#[trigger] s[i]),
        forall|i: int| 0 <= i < s.len() ==> app_max_rl(#[trigger] s[i]) == rl,
        forall|i: int| 0 <= i < s.len() ==> app_max_dl(#[trigger] s[i]) >= dl,
        dl >= 0,
        rl >= 0,
    ensures
        forall|i: int|
            0 <= i < leaves_seq(s).len() ==> {
                &&& (#[trigger] leaves_seq(s)[i]).ok()
                &&& leaves_seq(s)[i].max_dl >= dl
                &&& leaves_seq(s)[i].max_rl >= rl
            },
    decreases s,
{
    if s.len() > 0 {
        lemma_wf_leaves(s[0]);
        assert(forall|i: int| 0 <= i < s.skip(1).len() ==> s.skip(1)[i] == s[i + 1]);
        lemma_wf_leaves_seq(s.skip(1), dl, rl);
        let h = leaves(s[0]);
        let t = leaves_seq(s.skip(1));
        assert forall|i: int| 0 <= i < leaves_seq(s).len() implies {
            &&& (#[trigger] leaves_seq(s)[i]).ok()
            &&& leaves_seq(s)[i].max_dl >= dl
            &&& leaves_seq(s)[i].max_rl >= rl
        } by {
            if i < h.len() {
                assert(leaves_seq(s)[i] == h[i]);
                assert(null_bound(s[0]) >= app_max_dl(s[0]));
            } else {
                assert(leaves_seq(s)[i] == t[i - h.len()]);
            }
        }
    }
}

/// One appender step as seen by one leaf: the history may grow; a record
/// opens a new top-level row exactly when it is the first one appended
/// and the remembered root position was not yet `root`.
pub open spec fn leaf_step(pre: LeafModel, post: LeafModel, root: usize) -> bool {
    &&& post.max_dl == pre.max_dl
    &&& post.max_rl == pre.max_rl
    &&& post.flushed == pre.flushed
    &&& pre.history.len() <= post.history.len()
    &&& post.history.subrange(0, pre.history.len() as int) =~= pre.history
    &&& (post.history.len() == pre.history.len() ==> post.mark =~= pre.mark)
    &&& (post.history.len() > pre.history.len() ==> post.mark.len() == pre.mark.len()
        && post.mark[0] == root)
    &&& forall|j: int|
        pre.history.len() <= j < post.history.len() ==> ((#[trigger] post.history[j].rl == 0)
            <==> (j == pre.history.len() && pre.mark[0] != root))
}

/// One appender step as seen by the whole tree.
pub open spec fn tree_step(pre: Seq<LeafModel>, post: Seq<LeafModel>, root: usize) -> bool {
    &&& post.len() == pre.len()
    &&& forall|i: int| 0 <= i < pre.len() ==> leaf_step(pre[i], #[trigger] post[i], root)
}

/// Every leaf received at least one record.
pub open spec fn tree_grew(pre: Seq<LeafModel>, post: Seq<LeafModel>) -> bool {
    &&& post.len() == pre.len()
    &&& forall|i: int|
        0 <= i < pre.len() ==> pre[i].history.len() < (#[trigger] post[i]).history.len()
}

pub proof fn lemma_leaf_step_refl(l: LeafModel, root: usize)
    ensures
        leaf_step(l, l, root),
{
    assert(l.history.subrange(0, l.history.len() as int) =~= l.history);
}

pub proof fn lemma_leaf_step_trans(a: LeafModel, b: LeafModel, c: LeafModel, root: usize)
    requires
        leaf_step(a, b, root),
        leaf_step(b, c, root),
    ensures
        leaf_step(a, c, root),
{
    assert(c.history.subrange(0, a.history.len() as int) =~= a.history);
    assert forall|j: int|
        a.history.len() <= j < c.history.len() implies ((#[trigger] c.history[j].rl == 0) <==> (j
        == a.history.len() && a.mark[0] != root)) by {
        if j < b.history.len() {
            assert(c.history[j] == b.history.subrange(0, b.history.len() as int)[j]);
            assert(c.history[j] == b.history[j]);
        }
    }
}

pub proof fn lemma_tree_step_refl(l: Seq<LeafModel>, root: usize)
    ensures
        tree_step(l, l, root),
{
    assert forall|i: int| 0 <= i < l.len() implies leaf_step(l[i], #[trigger] l[i], root) by {
        lemma_leaf_step_refl(l[i], root);
    }
}

pub proof fn lemma_tree_step_trans(
    a: Seq<LeafModel>,
    b: Seq<LeafModel>,
    c: Seq<LeafModel>,
    root: usize,
)
    requires
        tree_step(a, b, root),
        tree_step(b, c, root),
    ensures
        tree_step(a, c, root),
{
    assert forall|i: int| 0 <= i < a.len() implies leaf_step(a[i], #[trigger] c[i], root) by {
        assert(leaf_step(a[i], b[i], root));
        assert(leaf_step(b[i], c[i], root));
        lemma_leaf_step_trans(a[i], b[i], c[i], root);
    }
}

/// A fresh root position makes the tree-step requirement on every leaf.
pub open spec fn root_ready(ls: Seq<LeafModel>, root: usize) -> bool {
    forall|i: int| 0 <= i < ls.len() ==> (#[trigger] ls[i]).mark[0] != root || ls[i].max_rl >= 1
}

/// The leaves of a child list split around any position.
pub proof fn lemma_leaves_seq_parts(s: Seq<ColumnAppender>, i: int)
    requires
        0 <= i <= s.len(),
    ensures
        leaves_seq(s) =~= leaves_seq(s.subrange(0, i)) + leaves_seq(s.skip(i)),
    decreases i,
{
    if i == 0 {
        assert(s.subrange(0, 0) =~= Seq::<ColumnAppender>::empty());
        assert(s.skip(0) =~= s);
    } else {
        lemma_leaves_seq_parts(s, i - 1);
        lemma_leaves_seq_head(s.skip(i - 1));
        assert(s.skip(i - 1)[0] == s[i - 1]);
        assert(s.skip(i - 1).skip(1) =~= s.skip(i));
        lemma_leaves_seq_snoc(s.subrange(0, i - 1), s[i - 1]);
        assert(s.subrange(0, i) =~= s.subrange(0, i - 1).push(s[i - 1]));
    }
}

/// Unfold the leaves of a non-empty child list at its head.
pub proof fn lemma_leaves_seq_head(s: Seq<ColumnAppender>)
    requires
        s.len() > 0,
    ensures
        leaves_seq(s) =~= leaves(s[0]) + leaves_seq(s.skip(1)),
{
}

/// Fold one more child onto the leaves of a child list.
pub proof fn lemma_leaves_seq_snoc(s: Seq<ColumnAppender>, c: ColumnAppender)
    ensures
        leaves_seq(s.push(c)) =~= leaves_seq(s) + leaves(c),
    decreases s,
{
    let p = s.push(c);
    if s.len() == 0 {
        assert(p[0] == c);
        assert(p.skip(1) =~= Seq::<ColumnAppender>::empty());
        assert(p.skip(1).len() == 0);
        assert(leaves_seq(p.skip(1)) =~= Seq::<LeafModel>::empty());
        assert(leaves_seq(s) =~= Seq::<LeafModel>::empty());
        assert(leaves_seq(p) =~= leaves(c) + leaves_seq(p.skip(1)));
        assert(leaves_seq(p) =~= leaves_seq(s) + leaves(c));
    } else {
        assert(p[0] == s[0]);
        assert(p.skip(1) =~= s.skip(1).push(c));
        assert(p.skip(1) == s.skip(1).push(c));
        lemma_leaves_seq_snoc(s.skip(1), c);
        lemma_leaves_seq_head(s);
        assert(leaves_seq(p) =~= leaves(p[0]) + leaves_seq(p.skip(1))) by {
            lemma_leaves_seq_head(p);
        }
        assert(leaves_seq(p.skip(1)) =~= leaves_seq(s.skip(1)) + leaves(c));
        assert(leaves_seq(p) =~= (leaves(s[0]) + leaves_seq(s.skip(1))) + leaves(c));
        assert(leaves_seq(s) == leaves(s[0]) + leaves_seq(s.skip(1)));
        assert(leaves_seq(p.skip(1)) == leaves_seq(s.skip(1)) + leaves(c));
        assert(leaves_seq(p) =~= leaves_seq(s) + leaves(c));
    }
}

/// Leaf count of the children before position `i`.
pub open spec fn loff(s: Seq<ColumnAppender>, i: int) -> int {
    leaves_seq(s.subrange(0, i)).len() as int
}

pub proof fn lemma_loff_step(s: Seq<ColumnAppender>, i: int)
    requires
        0 <= i < s.len(),
    ensures
        loff(s, i + 1) == loff(s, i) + leaves(s[i]).len(),
{
    lemma_leaves_seq_snoc(s.subrange(0, i), s[i]);
    assert(s.subrange(0, i + 1) =~= s.subrange(0, i).push(s[i]));
}

/// A child's leaf range fits inside the whole list's leaves.
pub proof fn lemma_loff_bound(s: Seq<ColumnAppender>, i: int)
    requires
        0 <= i < s.len(),
    ensures
        0 <= loff(s, i),
        loff(s, i) + leaves(s[i]).len() <= leaves_seq(s).len(),
{
    lemma_loff_step(s, i);
    lemma_leaves_seq_parts(s, i + 1);
}

pub proof fn lemma_loff_last(s: Seq<ColumnAppender>)
    ensures
        loff(s, s.len() as int) == leaves_seq(s).len(),
        loff(s, 0) == 0,
{
    assert(s.subrange(0, s.len() as int) =~= s);
    assert(s.subrange(0, 0) =~= Seq::<ColumnAppender>::empty());
}

/// Indexing into the leaves of a child list around one child.
pub proof fn lemma_leaves_seq_at(s: Seq<ColumnAppender>, i: int)
    requires
        0 <= i < s.len(),
    ensures
        leaves_seq(s).len() == loff(s, i) + leaves(s[i]).len() + leaves_seq(s.skip(i + 1)).len(),
        forall|k: int|
            0 <= k < leaves(s[i]).len() ==> #[trigger] leaves_seq(s)[loff(s, i) + k] == leaves(
                s[i],
            )[k],
        forall|k: int|
            0 <= k < loff(s, i) ==> #[trigger] leaves_seq(s)[k] == leaves_seq(s.subrange(0, i))[k],
        forall|k: int|
            loff(s, i) + leaves(s[i]).len() <= k < leaves_seq(s).len()
                ==> #[trigger] leaves_seq(s)[k] == leaves_seq(s.skip(i + 1))[k - loff(s, i)
                - leaves(s[i]).len()],
{
    lemma_leaves_seq_parts(s, i);
    lemma_leaves_seq_head(s.skip(i));
    assert(s.skip(i)[0] == s[i]);
    assert(s.skip(i).skip(1) =~= s.skip(i + 1));
    assert(leaves_seq(s) =~= leaves_seq(s.subrange(0, i)) + (leaves(s[i]) + leaves_seq(
        s.skip(i + 1),
    )));
}

/// Replacing one child changes exactly that child's slice of the leaves.
pub proof fn lemma_leaves_seq_update(s: Seq<ColumnAppender>, s2: Seq<ColumnAppender>, i: int)
    requires
        0 <= i < s.len(),
        s2.len() == s.len(),
        s2 =~= s.update(i, s2[i]),
        leaves(s2[i]).len() == leaves(s[i]).len(),
    ensures
        leaves_seq(s2).len() == leaves_seq(s).len(),
        loff(s2, i) == loff(s, i),
        forall|k: int| 0 <= k < loff(s, i) ==> #[trigger] leaves_seq(s2)[k] == leaves_seq(s)[k],
        forall|k: int|
            0 <= k < leaves(s[i]).len() ==> #[trigger] leaves_seq(s2)[loff(s, i) + k] == leaves(
                s2[i],
            )[k],
        forall|k: int|
            loff(s, i) + leaves(s[i]).len() <= k < leaves_seq(s).len() ==> #[trigger] leaves_seq(
                s2,
            )[k] == leaves_seq(s)[k],
{
    assert(s2.subrange(0, i) =~= s.subrange(0, i));
    assert(s2.skip(i + 1) =~= s.skip(i + 1));
    lemma_leaves_seq_at(s, i);
    lemma_leaves_seq_at(s2, i);
    assert(loff(s2, i) == loff(s, i));
}

/// Pointwise equal leaf counts give equal total leaf counts.
pub proof fn lemma_leaves_seq_len_eq(a: Seq<ColumnAppender>, b: Seq<ColumnAppender>)
    requires
        a.len() == b.len(),
        forall|j: int|
            0 <= j < a.len() ==> #[trigger] leaves(a[j]).len() == leaves(b[j]).len(),
    ensures
        leaves_seq(a).len() == leaves_seq(b).len(),
    decreases a.len(),
{
    if a.len() > 0 {
        assert forall|j: int|
            0 <= j < a.skip(1).len() implies #[trigger] leaves(a.skip(1)[j]).len() == leaves(
            b.skip(1)[j],
        ).len() by {
            assert(a.skip(1)[j] == a[j + 1]);
            assert(b.skip(1)[j] == b[j + 1]);
            assert(leaves(a[j + 1]).len() == leaves(b[j + 1]).len());
        }
        lemma_leaves_seq_len_eq(a.skip(1), b.skip(1));
        assert(leaves(a[0]).len() == leaves(b[0]).len());
        assert(leaves_seq(a) == leaves(a[0]) + leaves_seq(a.skip(1)));
        assert(leaves_seq(b) == leaves(b[0]) + leaves_seq(b.skip(1)));
    }
}

/// One NULL marker as seen by one leaf.
pub open spec fn null_step(pre: LeafModel, post: LeafModel, root: usize, level: int) -> bool {
    &&& leaf_step(pre, post, root)
    &&& post.history.len() == pre.history.len() + 1
    &&& post.history.last().dl == level
    &&& post.history.last().val is None
}

/// One NULL marker as seen by the whole tree: every leaf gets exactly one
/// marker at the given definition level.
pub open spec fn tree_null_step(
    pre: Seq<LeafModel>,
    post: Seq<LeafModel>,
    root: usize,
    level: int,
) -> bool {
    &&& post.len() == pre.len()
    &&& forall|i: int| 0 <= i < pre.len() ==> null_step(pre[i], #[trigger] post[i], root, level)
}

/// A flush as seen by one leaf: nothing changes but the flushed count.
pub open spec fn flushed_leaf(pre: LeafModel, post: LeafModel) -> bool {
    &&& post.max_dl == pre.max_dl
    &&& post.max_rl == pre.max_rl
    &&& post.history == pre.history
    &&& post.mark == pre.mark
    &&& post.flushed == pre.history.len()
}

/// One record of the payload an accepted value lays down at one leaf:
/// its definition level and its stored value.  `rl` is given where the
/// record re-enters a list; a record that opens the row takes its
/// repetition level from the position rules of `leaf_step` instead.
pub ghost struct PayloadRec {
    pub dl: int,
    pub rl: Option<int>,
    pub val: Option<PqVal>,
}

/// A tree with no list node below: a value fed to it lands as exactly
/// one record per leaf.
pub open spec fn flat(a: ColumnAppender) -> bool
    decreases a, 0int, 0int,
{
    match a {
        ColumnAppender::Generic(_) => true,
        ColumnAppender::Bytes(_) => true,
        ColumnAppender::Fixed(_) => true,
        ColumnAppender::Arr(_) => false,
        ColumnAppender::Merged(m) => flat_seq(m.columns@),
        ColumnAppender::Field(f) => flat(f.appender),
        ColumnAppender::Decode(d) => flat(d.inner),
    }
}

pub open spec fn flat_seq(s: Seq<ColumnAppender>) -> bool
    decreases s, 0int, 0int,
{
    s.len() == 0 || (flat(s[0]) && flat_seq(s.skip(1)))
}

/// Every child of a flat struct node is flat.
pub proof fn lemma_flat_seq_elem(s: Seq<ColumnAppender>, i: int)
    requires
        flat_seq(s),
        0 <= i < s.len(),
    ensures
        flat(s[i]),
    decreases i,
{
    if i > 0 {
        lemma_flat_seq_elem(s.skip(1), i - 1);
    }
}

/// One marker record at the given level, at every one of `n` leaves.
pub open spec fn marker_payload(n: nat, level: int) -> Seq<Seq<PayloadRec>> {
    Seq::new(
        n,
        |i: int| seq![PayloadRec { dl: level, rl: Option::None, val: Option::None }],
    )
}

/// The pseudo-row cells a structured decoder turns a raw value into.
pub open spec fn decoded_cells(dec: StructDecoder, v: PgV) -> Option<Seq<Option<Seq<u8>>>> {
    match (dec, v) {
        (StructDecoder::RangeDecoder, PgV::Raw(bytes)) => match crate::pg_custom_types::spec_parse_range(
            bytes,
        ) {
            Option::None => Option::None,
            Option::Some(rv) => Option::Some(
                seq![
                    rv.lower,
                    rv.upper,
                    Option::Some(
                        seq![
                            if rv.lower_inclusive {
                                1u8
                            } else {
                                0u8
                            },
                        ],
                    ),
                    Option::Some(
                        seq![
                            if rv.upper_inclusive {
                                1u8
                            } else {
                                0u8
                            },
                        ],
                    ),
                    Option::Some(
                        seq![
                            if rv.is_empty {
                                1u8
                            } else {
                                0u8
                            },
                        ],
                    ),
                ],
            ),
        },
        (StructDecoder::RecordDecoder(declared), PgV::Raw(bytes)) => crate::pg_custom_types::spec_parse_record(
            bytes,
            declared as int,
        ),
        _ => Option::None,
    }
}

/// What feeding one value to the tree appends at each leaf, where every
/// leaf accepts its part of the value; `None` where some leaf refuses.
pub open spec fn payload(a: ColumnAppender, v: PgV) -> Option<Seq<Seq<PayloadRec>>>
    decreases a, 0int, 0int,
{
    match a {
        ColumnAppender::Generic(g) => match crate::appenders::generic::conv_res(g.conv(), v) {
            crate::appenders::generic::CRes::CVal(x) => Option::Some(
                seq![
                    seq![
                        PayloadRec { dl: g.leaf().max_dl, rl: Option::None, val: Option::Some(x) },
                    ],
                ],
            ),
            crate::appenders::generic::CRes::CSoft => Option::Some(
                seq![
                    seq![
                        PayloadRec { dl: g.leaf().max_dl - 1, rl: Option::None, val: Option::None },
                    ],
                ],
            ),
            crate::appenders::generic::CRes::CNull => Option::Some(
                seq![
                    seq![
                        PayloadRec { dl: g.leaf().max_dl - 1, rl: Option::None, val: Option::None },
                    ],
                ],
            ),
            crate::appenders::generic::CRes::CErr => Option::None,
        },
        ColumnAppender::Bytes(b) => match crate::appenders::byte_array::byte_conv_res(
            b.conv(),
            v,
        ) {
            crate::appenders::byte_array::BRes::BVal(s) => Option::Some(
                seq![
                    seq![
                        PayloadRec {
                            dl: b.leaf().max_dl,
                            rl: Option::None,
                            val: Option::Some(PqVal::Bytes(s)),
                        },
                    ],
                ],
            ),
            crate::appenders::byte_array::BRes::BErr => Option::None,
        },
        ColumnAppender::Fixed(f) => match crate::appenders::fixed_byte_array::fixed_conv_res(
            f.conv(),
            v,
            f.spec_length(),
        ) {
            crate::appenders::byte_array::BRes::BVal(s) => Option::Some(
                seq![
                    seq![
                        PayloadRec {
                            dl: f.leaf().max_dl,
                            rl: Option::None,
                            val: Option::Some(PqVal::Fixed(s)),
                        },
                    ],
                ],
            ),
            crate::appenders::byte_array::BRes::BErr => Option::None,
        },
        ColumnAppender::Arr(b) => match v {
            PgV::Null => Option::Some(
                marker_payload(
                    leaves(a).len(),
                    if b.allow_null {
                        b.dl - 1
                    } else {
                        b.dl as int
                    },
                ),
            ),
            PgV::Raw(bytes) => match spec_elements(b.source, bytes) {
                Option::None => Option::None,
                Option::Some(es) => if es.len() == 0 {
                    Option::Some(marker_payload(leaves(a).len(), b.dl as int))
                } else if !flat(b.inner) {
                    Option::None
                } else {
                    list_payload(b.inner, es, b.dl as int, b.rl as int, b.allow_element_null)
                },
            },
            _ => Option::None,
        },
        ColumnAppender::Merged(m) => payload_seq(m.columns@, v),
        ColumnAppender::Field(f) => match v {
            PgV::Row(cells) => if f.column_i >= cells.len() || cells[f.column_i as int] is None {
                Option::Some(marker_payload(leaves(a).len(), f.max_dl - 1))
            } else {
                payload(f.appender, PgV::Raw(cells[f.column_i as int]->Some_0))
            },
            _ => Option::None,
        },
        ColumnAppender::Decode(d) => match decoded_cells(d.decoder, v) {
            Option::None => Option::None,
            Option::Some(cs) => payload(d.inner, PgV::Row(cs)),
        },
    }
}

/// The payloads of a struct node: its children's, leaf ranges in order.
pub open spec fn payload_seq(s: Seq<ColumnAppender>, v: PgV) -> Option<Seq<Seq<PayloadRec>>>
    decreases s, 0int, 0int,
{
    if s.len() == 0 {
        Option::Some(Seq::empty())
    } else {
        match (payload(s[0], v), payload_seq(s.skip(1), v)) {
            (Option::Some(h), Option::Some(t)) => Option::Some(h + t),
            _ => Option::None,
        }
    }
}

/// The single payload record one list element lays down at each leaf of
/// the element tree: a NULL element is one marker one level above the
/// list's own level.
pub open spec fn element_payload(
    inner: ColumnAppender,
    e: PgV,
    list_dl: int,
    allow_element_null: bool,
) -> Option<Seq<PayloadRec>>
    decreases inner, 0int, 1int,
{
    if e is Null {
        if allow_element_null {
            Option::Some(
                Seq::new(
                    leaves(inner).len(),
                    |i: int| PayloadRec { dl: list_dl + 1, rl: Option::None, val: Option::None },
                ),
            )
        } else {
            Option::None
        }
    } else {
        match payload(inner, e) {
            Option::None => Option::None,
            Option::Some(ps) => if ps.len() == leaves(inner).len() && (forall|i: int|
                0 <= i < ps.len() ==> (#[trigger] ps[i]).len() == 1) {
                Option::Some(Seq::new(leaves(inner).len(), |i: int| ps[i][0]))
            } else {
                Option::None
            },
        }
    }
}

/// The per-leaf payloads of a whole element list: element `j`'s record
/// re-enters the list at `list_rl + 1` for every `j` past the first.
pub open spec fn list_payload(
    inner: ColumnAppender,
    es: Seq<PgV>,
    list_dl: int,
    list_rl: int,
    allow_element_null: bool,
) -> Option<Seq<Seq<PayloadRec>>>
    decreases inner, 1int, es.len(),
{
    if es.len() == 0 {
        Option::Some(Seq::new(leaves(inner).len(), |i: int| Seq::empty()))
    } else {
        match (
            list_payload(inner, es.drop_last(), list_dl, list_rl, allow_element_null),
            element_payload(inner, es.last(), list_dl, allow_element_null),
        ) {
            (Option::Some(t), Option::Some(h)) => Option::Some(
                Seq::new(
                    leaves(inner).len(),
                    |i: int|
                        t[i].push(
                            PayloadRec {
                                dl: h[i].dl,
                                rl: if es.len() == 1 {
                                    Option::None
                                } else {
                                    Option::Some(list_rl + 1)
                                },
                                val: h[i].val,
                            },
                        ),
                ),
            ),
            _ => Option::None,
        }
    }
}

/// Two appender trees with the same plan: the same structure, levels and
/// conversions, so that they accept the same values with the same
/// payloads; only buffered state may differ.
pub open spec fn same_plan(a: ColumnAppender, b: ColumnAppender) -> bool
    decreases a, 0int, 0int,
{
    match (a, b) {
        (ColumnAppender::Generic(g), ColumnAppender::Generic(g2)) => {
            &&& g2.conv() == g.conv()
            &&& g2.leaf().max_dl == g.leaf().max_dl
            &&& g2.leaf().max_rl == g.leaf().max_rl
        },
        (ColumnAppender::Bytes(x), ColumnAppender::Bytes(y)) => {
            &&& y.conv() == x.conv()
            &&& y.leaf().max_dl == x.leaf().max_dl
            &&& y.leaf().max_rl == x.leaf().max_rl
        },
        (ColumnAppender::Fixed(x), ColumnAppender::Fixed(y)) => {
            &&& y.conv() == x.conv()
            &&& y.spec_length() == x.spec_length()
            &&& y.leaf().max_dl == x.leaf().max_dl
            &&& y.leaf().max_rl == x.leaf().max_rl
        },
        (ColumnAppender::Arr(x), ColumnAppender::Arr(y)) => {
            &&& same_plan(x.inner, y.inner)
            &&& y.dl == x.dl
            &&& y.rl == x.rl
            &&& y.allow_null == x.allow_null
            &&& y.allow_element_null == x.allow_element_null
            &&& y.source == x.source
        },
        (ColumnAppender::Merged(x), ColumnAppender::Merged(y)) => {
            &&& y.max_dl == x.max_dl
            &&& y.max_rl == x.max_rl
            &&& same_plan_seq(x.columns@, y.columns@)
        },
        (ColumnAppender::Field(x), ColumnAppender::Field(y)) => {
            &&& y.column_i == x.column_i
            &&& y.max_dl == x.max_dl
            &&& y.max_rl == x.max_rl
            &&& same_plan(x.appender, y.appender)
        },
        (ColumnAppender::Decode(x), ColumnAppender::Decode(y)) => {
            &&& y.decoder == x.decoder
            &&& y.max_dl == x.max_dl
            &&& y.max_rl == x.max_rl
            &&& same_plan(x.inner, y.inner)
        },
        _ => false,
    }
}

pub open spec fn same_plan_seq(s: Seq<ColumnAppender>, t: Seq<ColumnAppender>) -> bool
    decreases s, 0int, 0int,
{
    &&& s.len() == t.len()
    &&& (s.len() == 0 || (same_plan(s[0], t[0]) && same_plan_seq(s.skip(1), t.skip(1))))
}

pub proof fn lemma_same_plan_refl(a: ColumnAppender)
    ensures
        same_plan(a, a),
    decreases a, 0int, 0int,
{
    match a {
        ColumnAppender::Arr(x) => {
            lemma_same_plan_refl(x.inner);
        },
        ColumnAppender::Merged(x) => {
            lemma_same_plan_seq_refl(x.columns@);
        },
        ColumnAppender::Field(x) => {
            lemma_same_plan_refl(x.appender);
        },
        ColumnAppender::Decode(x) => {
            lemma_same_plan_refl(x.inner);
        },
        _ => {},
    }
}

pub proof fn lemma_same_plan_seq_refl(s: Seq<ColumnAppender>)
    ensures
        same_plan_seq(s, s),
    decreases s, 0int, 0int,
{
    if s.len() > 0 {
        lemma_same_plan_refl(s[0]);
        lemma_same_plan_seq_refl(s.skip(1));
    }
}

pub proof fn lemma_same_plan_trans(a: ColumnAppender, b: ColumnAppender, c: ColumnAppender)
    requires
        same_plan(a, b),
        same_plan(b, c),
    ensures
        same_plan(a, c),
    decreases a, 0int, 0int,
{
    match (a, b, c) {
        (ColumnAppender::Arr(x), ColumnAppender::Arr(y), ColumnAppender::Arr(z)) => {
            lemma_same_plan_trans(x.inner, y.inner, z.inner);
        },
        (ColumnAppender::Merged(x), ColumnAppender::Merged(y), ColumnAppender::Merged(z)) => {
            lemma_same_plan_seq_trans(x.columns@, y.columns@, z.columns@);
        },
        (ColumnAppender::Field(x), ColumnAppender::Field(y), ColumnAppender::Field(z)) => {
            lemma_same_plan_trans(x.appender, y.appender, z.appender);
        },
        (ColumnAppender::Decode(x), ColumnAppender::Decode(y), ColumnAppender::Decode(z)) => {
            lemma_same_plan_trans(x.inner, y.inner, z.inner);
        },
        _ => {},
    }
}

pub proof fn lemma_same_plan_seq_trans(
    s: Seq<ColumnAppender>,
    t: Seq<ColumnAppender>,
    u: Seq<ColumnAppender>,
)
    requires
        same_plan_seq(s, t),
        same_plan_seq(t, u),
    ensures
        same_plan_seq(s, u),
    decreases s, 0int, 0int,
{
    if s.len() > 0 {
        lemma_same_plan_trans(s[0], t[0], u[0]);
        lemma_same_plan_seq_trans(s.skip(1), t.skip(1), u.skip(1));
    }
}

/// Pointwise same plans make the sequences same-planned.
pub proof fn lemma_same_plan_seq_pointwise(s: Seq<ColumnAppender>, t: Seq<ColumnAppender>)
    requires
        s.len() == t.len(),
        forall|j: int| 0 <= j < s.len() ==> same_plan(#[trigger] s[j], t[j]),
    ensures
        same_plan_seq(s, t),
    decreases s, 0int, 0int,
{
    if s.len() > 0 {
        assert(same_plan(s[0], t[0]));
        assert forall|j: int| 0 <= j < s.skip(1).len() implies same_plan(
            #[trigger] s.skip(1)[j],
            t.skip(1)[j],
        ) by {
            assert(s.skip(1)[j] == s[j + 1]);
            assert(t.skip(1)[j] == t[j + 1]);
        }
        lemma_same_plan_seq_pointwise(s.skip(1), t.skip(1));
    }
}

/// Trees with the same plan have the same shape of leaves, the same
/// flatness, and the same payload for every value.
pub proof fn lemma_same_plan_payload(a: ColumnAppender, b: ColumnAppender, v: PgV)
    requires
        same_plan(a, b),
    ensures
        flat(b) == flat(a),
        leaves(b).len() == leaves(a).len(),
        payload(b, v) == payload(a, v),
    decreases a, 0int, 0int, 0int,
{
    match (a, b) {
        (ColumnAppender::Arr(x), ColumnAppender::Arr(y)) => {
            lemma_same_plan_payload(x.inner, y.inner, v);
            match v {
                PgV::Raw(bytes) => {
                    match spec_elements(x.source, bytes) {
                        Option::Some(es) => {
                            if es.len() > 0 && flat(x.inner) {
                                lemma_same_plan_list_payload(
                                    x.inner,
                                    y.inner,
                                    es,
                                    x.dl as int,
                                    x.rl as int,
                                    x.allow_element_null,
                                );
                            }
                        },
                        Option::None => {},
                    }
                },
                _ => {},
            }
        },
        (ColumnAppender::Merged(x), ColumnAppender::Merged(y)) => {
            lemma_same_plan_seq_payload(x.columns@, y.columns@, v);
        },
        (ColumnAppender::Field(x), ColumnAppender::Field(y)) => {
            match v {
                PgV::Row(cells) => {
                    if x.column_i < cells.len() && cells[x.column_i as int] is Some {
                        lemma_same_plan_payload(
                            x.appender,
                            y.appender,
                            PgV::Raw(cells[x.column_i as int]->Some_0),
                        );
                    } else {
                        lemma_same_plan_payload(x.appender, y.appender, v);
                    }
                },
                _ => {
                    lemma_same_plan_payload(x.appender, y.appender, v);
                },
            }
        },
        (ColumnAppender::Decode(x), ColumnAppender::Decode(y)) => {
            match decoded_cells(x.decoder, v) {
                Option::Some(cs) => {
                    lemma_same_plan_payload(x.inner, y.inner, PgV::Row(cs));
                },
                Option::None => {
                    lemma_same_plan_payload(x.inner, y.inner, v);
                },
            }
        },
        _ => {},
    }
}

pub proof fn lemma_same_plan_seq_payload(s: Seq<ColumnAppender>, t: Seq<ColumnAppender>, v: PgV)
    requires
        same_plan_seq(s, t),
    ensures
        flat_seq(t) == flat_seq(s),
        leaves_seq(t).len() == leaves_seq(s).len(),
        payload_seq(t, v) == payload_seq(s, v),
    decreases s, 0int, 0int, 0int,
{
    if s.len() > 0 {
        lemma_same_plan_payload(s[0], t[0], v);
        lemma_same_plan_seq_payload(s.skip(1), t.skip(1), v);
    }
}

pub proof fn lemma_same_plan_element_payload(
    a: ColumnAppender,
    b: ColumnAppender,
    e: PgV,
    list_dl: int,
    allow_element_null: bool,
)
    requires
        same_plan(a, b),
    ensures
        element_payload(b, e, list_dl, allow_element_null) == element_payload(
            a,
            e,
            list_dl,
            allow_element_null,
        ),
    decreases a, 0int, 1int, 0int,
{
    lemma_same_plan_payload(a, b, e);
}

pub proof fn lemma_same_plan_list_payload(
    a: ColumnAppender,
    b: ColumnAppender,
    es: Seq<PgV>,
    list_dl: int,
    list_rl: int,
    allow_element_null: bool,
)
    requires
        same_plan(a, b),
    ensures
        list_payload(b, es, list_dl, list_rl, allow_element_null) == list_payload(
            a,
            es,
            list_dl,
            list_rl,
            allow_element_null,
        ),
    decreases a, 1int, 0int, es.len(),
{
    lemma_same_plan_payload(a, b, PgV::Null);
    if es.len() > 0 {
        lemma_same_plan_list_payload(a, b, es.drop_last(), list_dl, list_rl, allow_element_null);
        lemma_same_plan_element_payload(a, b, es.last(), list_dl, allow_element_null);
    }
}

/// Prefix of a prefix.
pub proof fn lemma_prefix_trans(a: Seq<String>, b: Seq<String>, c: Seq<String>)
    requires
        a.is_prefix_of(b),
        b.is_prefix_of(c),
    ensures
        a.is_prefix_of(c),
{
    assert(a =~= c.subrange(0, a.len() as int));
}

/// One leaf's new records are exactly the payload, in order, with the
/// tagged repetition levels.
pub open spec fn payload_appended(pre: LeafModel, post: LeafModel, ps: Seq<PayloadRec>) -> bool {
    &&& post.history.len() == pre.history.len() + ps.len()
    &&& forall|j: int|
        0 <= j < ps.len() ==> {
            let rec = #[trigger] post.history[pre.history.len() + j];
            &&& rec.dl == ps[j].dl
            &&& rec.val == ps[j].val
            &&& (ps[j].rl matches Option::Some(x) ==> rec.rl == x)
        }
}

/// A payload covers the leaves, one record list each.
pub proof fn lemma_payload_len(a: ColumnAppender, v: PgV)
    requires
        payload(a, v) is Some,
    ensures
        payload(a, v)->Some_0.len() == leaves(a).len(),
    decreases a, 0int, 0int,
{
    match a {
        ColumnAppender::Arr(b) => {
            match v {
                PgV::Raw(bytes) => {
                    match spec_elements(b.source, bytes) {
                        Option::Some(es) => {
                            if es.len() > 0 && flat(b.inner) {
                                lemma_list_payload_len(
                                    b.inner,
                                    es,
                                    b.dl as int,
                                    b.rl as int,
                                    b.allow_element_null,
                                );
                            }
                        },
                        Option::None => {},
                    }
                },
                _ => {},
            }
        },
        ColumnAppender::Merged(m) => {
            lemma_payload_seq_len(m.columns@, v);
        },
        ColumnAppender::Field(f) => {
            match v {
                PgV::Row(cells) => {
                    if f.column_i < cells.len() && cells[f.column_i as int] is Some {
                        lemma_payload_len(f.appender, PgV::Raw(cells[f.column_i as int]->Some_0));
                    }
                },
                _ => {},
            }
        },
        ColumnAppender::Decode(d) => {
            match decoded_cells(d.decoder, v) {
                Option::Some(cs) => {
                    lemma_payload_len(d.inner, PgV::Row(cs));
                },
                Option::None => {},
            }
        },
        _ => {},
    }
}

pub proof fn lemma_payload_seq_len(s: Seq<ColumnAppender>, v: PgV)
    requires
        payload_seq(s, v) is Some,
    ensures
        payload_seq(s, v)->Some_0.len() == leaves_seq(s).len(),
    decreases s, 0int, 0int,
{
    if s.len() > 0 {
        lemma_payload_len(s[0], v);
        lemma_payload_seq_len(s.skip(1), v);
    }
}

pub proof fn lemma_list_payload_len(
    inner: ColumnAppender,
    es: Seq<PgV>,
    list_dl: int,
    list_rl: int,
    allow_element_null: bool,
)
    requires
        list_payload(inner, es, list_dl, list_rl, allow_element_null) is Some,
    ensures
        list_payload(inner, es, list_dl, list_rl, allow_element_null)->Some_0.len() == leaves(
            inner,
        ).len(),
    decreases es.len(),
{
}

/// A single appended record realises a one-record payload.
pub proof fn lemma_appended1_payload(
    pre: LeafModel,
    post: LeafModel,
    path: Seq<usize>,
    pr: PayloadRec,
)
    requires
        crate::appenders::records::appended1(pre, post, path, pr.dl, pr.val),
        pr.rl matches Option::Some(x) ==> x == crate::level_index::diff_level(pre.mark, path),
    ensures
        payload_appended(pre, post, seq![pr]),
{
    let rec = crate::appenders::records::Rec {
        dl: pr.dl,
        rl: crate::level_index::diff_level(pre.mark, path),
        val: pr.val,
    };
    assert(post.history =~= pre.history.push(rec));
    assert(post.history[pre.history.len() as int] == rec);
}

/// A NULL marker step realises a one-marker payload.
pub proof fn lemma_null_payload(pre: LeafModel, post: LeafModel, root: usize, level: int)
    requires
        null_step(pre, post, root, level),
    ensures
        payload_appended(
            pre,
            post,
            seq![PayloadRec { dl: level, rl: Option::None, val: Option::None }],
        ),
{
    assert(post.history[pre.history.len() as int] == post.history.last());
}

/// Extending an already-laid payload by one more appended record.
pub proof fn lemma_payload_snoc(
    l0: LeafModel,
    mid: LeafModel,
    post: LeafModel,
    ps: Seq<PayloadRec>,
    path: Seq<usize>,
    pr: PayloadRec,
)
    requires
        payload_appended(l0, mid, ps),
        crate::appenders::records::appended1(mid, post, path, pr.dl, pr.val),
        pr.rl matches Option::Some(x) ==> x == crate::level_index::diff_level(mid.mark, path),
    ensures
        payload_appended(l0, post, ps.push(pr)),
{
    let rec = crate::appenders::records::Rec {
        dl: pr.dl,
        rl: crate::level_index::diff_level(mid.mark, path),
        val: pr.val,
    };
    assert(post.history =~= mid.history.push(rec));
    assert forall|j: int| 0 <= j < ps.push(pr).len() implies {
        let r2 = #[trigger] post.history[l0.history.len() + j];
        &&& r2.dl == ps.push(pr)[j].dl
        &&& r2.val == ps.push(pr)[j].val
        &&& (ps.push(pr)[j].rl matches Option::Some(x) ==> r2.rl == x)
    } by {
        if j < ps.len() {
            assert(post.history[l0.history.len() + j] == mid.history[l0.history.len() + j]);
            assert(ps.push(pr)[j] == ps[j]);
        } else {
            assert(post.history[l0.history.len() + j] == rec);
        }
    }
}

/// A NULL broadcast realises the marker payload at every leaf.
pub proof fn lemma_marker_payload_appended(
    l0: Seq<LeafModel>,
    l1: Seq<LeafModel>,
    root: usize,
    level: int,
)
    requires
        tree_null_step(l0, l1, root, level),
    ensures
        forall|i: int|
            0 <= i < l0.len() ==> payload_appended(
                l0[i],
                #[trigger] l1[i],
                marker_payload(l0.len(), level)[i],
            ),
{
    assert forall|i: int| 0 <= i < l0.len() implies payload_appended(
        l0[i],
        #[trigger] l1[i],
        marker_payload(l0.len(), level)[i],
    ) by {
        lemma_null_payload(l0[i], l1[i], root, level);
        assert(marker_payload(l0.len(), level)[i] =~= seq![
            PayloadRec { dl: level, rl: Option::None, val: Option::None },
        ]);
    }
}

/// The payload of child `i` of a struct node sits at its leaf offset.
pub proof fn lemma_payload_seq_at(s: Seq<ColumnAppender>, v: PgV, i: int)
    requires
        payload_seq(s, v) is Some,
        0 <= i < s.len(),
    ensures
        payload(s[i], v) is Some,
        forall|k: int|
            0 <= k < leaves(s[i]).len() ==> payload_seq(s, v)->Some_0[loff(s, i) + k] == payload(
                s[i],
                v,
            )->Some_0[k],
    decreases i,
{
    lemma_payload_seq_len(s, v);
    if i == 0 {
        lemma_payload_len(s[0], v);
        assert(s.subrange(0, 0) =~= Seq::<ColumnAppender>::empty());
        assert(loff(s, 0) == 0);
        assert forall|k: int| 0 <= k < leaves(s[0]).len() implies payload_seq(s, v)->Some_0[loff(
            s,
            0,
        ) + k] == payload(s[0], v)->Some_0[k] by {
            lemma_payload_len(s[0], v);
        }
    } else {
        let t = s.skip(1);
        lemma_payload_len(s[0], v);
        lemma_payload_seq_at(t, v, i - 1);
        assert(t[i - 1] == s[i]);
        lemma_leaves_seq_head(s);
        assert(leaves_seq(s.subrange(0, i)) =~= leaves(s[0]) + leaves_seq(t.subrange(0, i - 1)))
            by {
            lemma_leaves_seq_head(s.subrange(0, i));
            assert(s.subrange(0, i)[0] == s[0]);
            assert(s.subrange(0, i).skip(1) =~= t.subrange(0, i - 1));
        }
        assert(loff(s, i) == leaves(s[0]).len() + loff(t, i - 1));
        lemma_payload_seq_len(t, v);
        let h = payload(s[0], v)->Some_0;
        let tp = payload_seq(t, v)->Some_0;
        assert(payload(s[0], v) is Some && payload_seq(t, v) is Some);
        assert(payload_seq(s, v)->Some_0 =~= h + tp);
        assert(h.len() == leaves(s[0]).len());
        assert forall|k: int| 0 <= k < leaves(s[i]).len() implies payload_seq(s, v)->Some_0[loff(
            s,
            i,
        ) + k] == payload(s[i], v)->Some_0[k] by {
            assert(loff(t, i - 1) + k < leaves_seq(t).len()) by {
                lemma_loff_bound(t, i - 1);
            }
            assert((h + tp)[h.len() + (loff(t, i - 1) + k)] == tp[loff(t, i - 1) + k]);
            assert(tp[loff(t, i - 1) + k] == payload(t[i - 1], v)->Some_0[k]);
        }
    }
}

/// Unfold the list payload at one element: the prefixes stay defined and
/// each leaf's payload grows by that element's record, tagged with the
/// element repetition level past the first element.
pub proof fn lemma_list_payload_step(
    inner: ColumnAppender,
    es: Seq<PgV>,
    list_dl: int,
    list_rl: int,
    allow_element_null: bool,
    j: int,
)
    requires
        list_payload(inner, es, list_dl, list_rl, allow_element_null) is Some,
        0 <= j < es.len(),
    ensures
        list_payload(inner, es.subrange(0, j), list_dl, list_rl, allow_element_null) is Some,
        list_payload(inner, es.subrange(0, j + 1), list_dl, list_rl, allow_element_null) is Some,
        element_payload(inner, es[j], list_dl, allow_element_null) is Some,
        forall|i: int|
            0 <= i < leaves(inner).len() ==> #[trigger] list_payload(
                inner,
                es.subrange(0, j + 1),
                list_dl,
                list_rl,
                allow_element_null,
            )->Some_0[i] == list_payload(
                inner,
                es.subrange(0, j),
                list_dl,
                list_rl,
                allow_element_null,
            )->Some_0[i].push(
                PayloadRec {
                    dl: element_payload(inner, es[j], list_dl, allow_element_null)->Some_0[i].dl,
                    rl: if j == 0 {
                        Option::None
                    } else {
                        Option::Some(list_rl + 1)
                    },
                    val: element_payload(inner, es[j], list_dl, allow_element_null)->Some_0[i].val,
                },
            ),
    decreases es.len(),
{
    if j == es.len() - 1 {
        assert(es.drop_last() =~= es.subrange(0, j));
        assert(es.subrange(0, j + 1) =~= es);
        assert(es.last() == es[j]);
    } else {
        let shorter = es.drop_last();
        assert(list_payload(inner, shorter, list_dl, list_rl, allow_element_null) is Some);
        lemma_list_payload_step(inner, shorter, list_dl, list_rl, allow_element_null, j);
        assert(shorter.subrange(0, j) =~= es.subrange(0, j));
        assert(shorter.subrange(0, j + 1) =~= es.subrange(0, j + 1));
        assert(shorter[j] == es[j]);
    }
}

/// Two child paths that differ only in the element index part at their
/// last position: the first difference is that last position.
pub proof fn lemma_diff_level_sibling(a: Seq<usize>, x: usize, y: usize)
    requires
        a.len() >= 1,
        x != y,
    ensures
        crate::level_index::diff_level(a.push(x), a.push(y)) == a.len(),
{
    crate::level_index::lemma_first_diff_bounds(a.push(y), a.push(x));
    let fd = crate::level_index::first_diff(a.push(y), a.push(x));
    if fd < a.len() {
        assert(a.push(x)[fd] == a[fd]);
        assert(a.push(y)[fd] == a[fd]);
        assert(false);
    }
    if fd > a.len() {
        assert(a.push(x)[a.len() as int] == a.push(y)[a.len() as int]);
        assert(false);
    }
    assert(fd == a.len());
    assert(fd < a.push(y).len());
}

/// Static shape preserved by every appender operation.
pub open spec fn same_shape(a: ColumnAppender, b: ColumnAppender) -> bool {
    &&& app_height(b) == app_height(a)
    &&& app_max_dl(b) == app_max_dl(a)
    &&& app_max_rl(b) == app_max_rl(a)
    &&& null_bound(b) == null_bound(a)
    &&& leaves(b).len() == leaves(a).len()
}

/// The first `k` dimension lengths joined with `x`.
pub open spec fn dims_x(ds: Seq<i32>, k: int) -> Seq<char>
    decreases k,
{
    if k <= 0 {
        Seq::empty()
    } else if k == 1 {
        crate::postgresutils::int_chars(ds[0] as int)
    } else {
        dims_x(ds, k - 1) + seq!['x'] + crate::postgresutils::int_chars(ds[k - 1] as int)
    }
}

/// The one-shot note that a multidimensional array was flattened: the
/// column path, the dimension count, the observed shape, and the length
/// of the flat list it became.
pub open spec fn multidim_note_text(
    path: Seq<char>,
    nd: int,
    dims: Option<Seq<i32>>,
    flat: int,
) -> Seq<char> {
    ("column ")@ + path + (" holds a ")@ + crate::postgresutils::int_chars(nd) + (
    "-dimensional array; it is flattened to a list of ")@ + crate::postgresutils::dec_chars(flat)
        + (" elements (shape ")@ + (match dims {
        Option::Some(ds) => dims_x(ds, ds.len() as int),
        Option::None => Seq::empty(),
    }) + (")")@
}

/// Build the flatten note.
fn multidim_note(path: &String, nd: i32, dims: &Option<Vec<i32>>, flat: usize) -> (m: String)
    ensures
        m@ == multidim_note_text(
            path@,
            nd as int,
            match dims {
                Option::Some(d) => Option::Some(d@),
                Option::None => Option::<Seq<i32>>::None,
            },
            flat as int,
        ),
{
    let mut m = String::new();
    proof {
        reveal_strlit("column ");
        reveal_strlit(" holds a ");
        reveal_strlit("-dimensional array; it is flattened to a list of ");
        reveal_strlit(" elements (shape ");
        reveal_strlit("x");
        reveal_strlit(")");
    }
    m.append("column ");
    m.append(path.as_str());
    m.append(" holds a ");
    crate::postgresutils::push_i64(&mut m, nd as i64);
    m.append("-dimensional array; it is flattened to a list of ");
    crate::postgresutils::push_u64(&mut m, flat as u64);
    m.append(" elements (shape ");
    let ghost mid = m@;
    match dims {
        Option::Some(ds) => {
            let n = ds.len();
            let mut i: usize = 0;
            while i < n
                invariant
                    i <= n,
                    n == ds@.len(),
                    m@ =~= mid + dims_x(ds@, i as int),
                decreases n - i,
            {
                if i > 0 {
                    proof {
                        reveal_strlit("x");
                    }
                    m.append("x");
                }
                crate::postgresutils::push_i64(&mut m, ds[i] as i64);
                proof {
                    assert(m@ =~= mid + dims_x(ds@, i as int + 1));
                }
                i = i + 1;
            }
        },
        Option::None => {},
    }
    m.append(")");
    proof {
        assert(m@ =~= multidim_note_text(
            path@,
            nd as int,
            match dims {
                Option::Some(d) => Option::Some(d@),
                Option::None => Option::<Seq<i32>>::None,
            },
            flat as int,
        ));
    }
    m
}

impl ColumnAppender {
    /// Maximal definition level of this node.
    pub fn max_dl(&self) -> (r: i16)
        ensures
            r as int == app_max_dl(*self),
    {
        match self {
            ColumnAppender::Generic(g) => g.max_dl(),
            ColumnAppender::Bytes(b) => b.max_dl(),
            ColumnAppender::Fixed(f) => f.max_dl(),
            ColumnAppender::Arr(b) => b.dl,
            ColumnAppender::Merged(m) => m.max_dl,
            ColumnAppender::Field(f) => f.max_dl,
            ColumnAppender::Decode(d) => d.max_dl,
        }
    }

    /// Maximal repetition level of this node.
    pub fn max_rl(&self) -> (r: i16)
        ensures
            r as int == app_max_rl(*self),
    {
        match self {
            ColumnAppender::Generic(g) => g.max_rl(),
            ColumnAppender::Bytes(b) => b.max_rl(),
            ColumnAppender::Fixed(f) => f.max_rl(),
            ColumnAppender::Arr(b) => b.rl,
            ColumnAppender::Merged(m) => m.max_rl,
            ColumnAppender::Field(f) => f.max_rl,
            ColumnAppender::Decode(d) => d.max_rl,
        }
    }

    /// Broadcast one NULL marker at the given definition level to every
    /// leaf below this node.
    #[verifier::loop_isolation(false)]
    pub fn write_null(self, repetition_index: &LevelIndexList, level: i16) -> (r: (Self, usize))
        requires
            app_wf(self),
            repetition_index.wf(),
            repetition_index@.len() == app_max_rl(self) + 1,
            root_ready(leaves(self), repetition_index@[0]),
            0 <= level < null_bound(self),
        ensures
            app_wf(r.0),
            same_shape(self, r.0),
            tree_null_step(leaves(self), leaves(r.0), repetition_index@[0], level as int),
            same_plan(self, r.0),
            flat(self) ==> forall|i: int|
                0 <= i < leaves(self).len() ==> crate::appenders::records::appended1(
                    leaves(self)[i],
                    #[trigger] leaves(r.0)[i],
                    repetition_index@,
                    level as int,
                    Option::None,
                ),
        decreases app_height(self), 0int,
    {
        let ghost root = repetition_index@[0];
        match self {
            ColumnAppender::Generic(g) => {
                proof {
                    g.lemma_wf_leaf();
                    assert(leaves(self)[0] == g.leaf());
                    assert(root_ready(leaves(self), root));
                }
                let (g2, sz) = g.write_null(repetition_index, level);
                proof {
                    lemma_appended1_step(
                        g.leaf(),
                        g2.leaf(),
                        repetition_index@,
                        level as int,
                        Option::None,
                        root,
                    );
                }
                (ColumnAppender::Generic(g2), sz)
            },
            ColumnAppender::Bytes(b) => {
                proof {
                    b.lemma_wf_leaf();
                    assert(leaves(self)[0] == b.leaf());
                }
                let (b2, sz) = b.write_null(repetition_index, level);
                proof {
                    lemma_appended1_step(
                        b.leaf(),
                        b2.leaf(),
                        repetition_index@,
                        level as int,
                        Option::None,
                        root,
                    );
                }
                (ColumnAppender::Bytes(b2), sz)
            },
            ColumnAppender::Fixed(f) => {
                proof {
                    f.lemma_wf_leaf();
                    assert(leaves(self)[0] == f.leaf());
                }
                let (f2, sz) = f.write_null(repetition_index, level);
                proof {
                    lemma_appended1_step(
                        f.leaf(),
                        f2.leaf(),
                        repetition_index@,
                        level as int,
                        Option::None,
                        root,
                    );
                }
                (ColumnAppender::Fixed(f2), sz)
            },
            ColumnAppender::Arr(b) => {
                let ArrayColumnAppender {
                    inner,
                    dl,
                    rl,
                    allow_null,
                    allow_element_null,
                    source,
                    warn_multidim,
                    warned_multidim,
                    path,
                } =
                    *b;
                let child = repetition_index.new_child();
                proof {
                    lemma_wf_leaves(inner);
                }
                let (inner2, sz) = inner.write_null(&child, level);
                proof {
                    assert(child@[0] == root);
                }
                (
                    ColumnAppender::Arr(
                        Box::new(
                            ArrayColumnAppender {
                                inner: inner2,
                                dl,
                                rl,
                                allow_null,
                                allow_element_null,
                                source,
                                warn_multidim,
                                warned_multidim,
                                path,
                            },
                        ),
                    ),
                    sz,
                )
            },
            ColumnAppender::Merged(m) => {
                let DynamicMergedAppender { mut columns, max_dl, max_rl } = m;
                let ghost orig = columns@;
                let ghost l0 = leaves_seq(orig);
                let mut total: usize = 0;
                let n = columns.len();
                let mut i: usize = 0;
                proof {
                    lemma_loff_last(orig);
                    assert(orig.subrange(0, 0) =~= Seq::<ColumnAppender>::empty());
                }
                while i < n
                    invariant
                        i <= n,
                        columns@.len() == n,
                        forall|j: int|
                            0 <= j < n ==> #[trigger] app_height(columns@[j]) == app_height(
                                orig[j],
                            ),
                        forall|j: int| 0 <= j < n ==> app_wf(#[trigger] columns@[j]),
                        forall|j: int|
                            0 <= j < n ==> app_max_dl(#[trigger] columns@[j]) == app_max_dl(
                                orig[j],
                            ),
                        forall|j: int|
                            0 <= j < n ==> app_max_rl(#[trigger] columns@[j]) == app_max_rl(
                                orig[j],
                            ),
                        forall|j: int| i <= j < n ==> columns@[j] == orig[j],
                        forall|j: int| 0 <= j < i ==> same_plan(#[trigger] orig[j], columns@[j]),
                        forall|j: int|
                            0 <= j < n ==> #[trigger] leaves(columns@[j]).len() == leaves(
                                orig[j],
                            ).len(),
                        leaves_seq(columns@).len() == l0.len(),
                        forall|k: int|
                            0 <= k < loff(orig, i as int) ==> null_step(
                                l0[k],
                                #[trigger] leaves_seq(columns@)[k],
                                root,
                                level as int,
                            ),
                        flat(self) ==> forall|k: int|
                            0 <= k < loff(orig, i as int)
                                ==> crate::appenders::records::appended1(
                                l0[k],
                                #[trigger] leaves_seq(columns@)[k],
                                repetition_index@,
                                level as int,
                                Option::None,
                            ),
                        forall|k: int|
                            loff(orig, i as int) <= k < l0.len() ==> #[trigger] leaves_seq(
                                columns@,
                            )[k] == l0[k],
                    decreases n - i,
                {
                    let ghost pre_cols = columns@;
                    let c = columns.remove(i);
                    proof {
                        lemma_apps_height_elem(orig, i as int);
                        lemma_leaves_seq_at(orig, i as int);
                        lemma_loff_step(orig, i as int);
                        assert(c == orig[i as int]);
                        assert(leaves(self) == l0);
                        assert forall|k: int| 0 <= k < leaves(c).len() implies (
                        #[trigger] leaves(c)[k]).mark[0] != root || leaves(c)[k].max_rl >= 1 by {
                            assert(l0[loff(orig, i as int) + k] == leaves(orig[i as int])[k]);
                        }
                    }
                    let (c2, sz) = c.write_null(repetition_index, level);
                    total = crate::appenders::generic::usize_sat_add(total, sz);
                    columns.insert(i, c2);
                    proof {
                        assert(columns@ =~= pre_cols.update(i as int, c2));
                        assert(pre_cols.subrange(0, i as int) =~= columns@.subrange(0, i as int));
                        assert forall|j: int|
                            0 <= j < i implies #[trigger] leaves(
                            pre_cols.subrange(0, i as int)[j],
                        ).len() == leaves(orig.subrange(0, i as int)[j]).len() by {
                            assert(pre_cols.subrange(0, i as int)[j] == pre_cols[j]);
                            assert(orig.subrange(0, i as int)[j] == orig[j]);
                            assert(leaves(pre_cols[j]).len() == leaves(orig[j]).len());
                        }
                        lemma_leaves_seq_len_eq(
                            pre_cols.subrange(0, i as int),
                            orig.subrange(0, i as int),
                        );
                        assert(loff(pre_cols, i as int) == loff(orig, i as int));
                        lemma_leaves_seq_update(pre_cols, columns@, i as int);
                        lemma_leaves_seq_at(pre_cols, i as int);
                        assert(same_plan(c, c2));
                        assert forall|j: int| 0 <= j < i + 1 implies same_plan(
                            #[trigger] orig[j],
                            columns@[j],
                        ) by {
                            if j < i {
                                assert(columns@[j] == pre_cols[j]);
                            } else {
                                assert(columns@[j] == c2);
                            }
                        }
                        assert forall|k: int|
                            0 <= k < loff(orig, i as int + 1) implies null_step(
                            l0[k],
                            #[trigger] leaves_seq(columns@)[k],
                            root,
                            level as int,
                        ) by {
                            if k < loff(orig, i as int) {
                                assert(leaves_seq(columns@)[k] == leaves_seq(pre_cols)[k]);
                            } else {
                                let kk = k - loff(orig, i as int);
                                assert(leaves_seq(columns@)[loff(pre_cols, i as int) + kk]
                                    == leaves(c2)[kk]);
                                assert(leaves_seq(pre_cols)[k] == l0[k]);
                                assert(l0[k] == leaves(c)[kk]) by {
                                    assert(l0[loff(orig, i as int) + kk] == leaves(
                                        orig[i as int],
                                    )[kk]);
                                }
                            }
                        }
                        if flat(self) {
                            lemma_flat_seq_elem(orig, i as int);
                            assert(flat(c));
                        }
                        assert forall|k: int|
                            flat(self) && 0 <= k < loff(orig, i as int + 1)
                                implies crate::appenders::records::appended1(
                            l0[k],
                            #[trigger] leaves_seq(columns@)[k],
                            repetition_index@,
                            level as int,
                            Option::None,
                        ) by {
                            if k < loff(orig, i as int) {
                                assert(leaves_seq(columns@)[k] == leaves_seq(pre_cols)[k]);
                            } else {
                                let kk = k - loff(orig, i as int);
                                assert(leaves_seq(columns@)[loff(pre_cols, i as int) + kk]
                                    == leaves(c2)[kk]);
                                assert(leaves_seq(pre_cols)[k] == l0[k]);
                                assert(l0[k] == leaves(c)[kk]) by {
                                    assert(l0[loff(orig, i as int) + kk] == leaves(
                                        orig[i as int],
                                    )[kk]);
                                }
                            }
                        }
                        assert forall|k: int|
                            loff(orig, i as int + 1) <= k < l0.len() implies #[trigger] leaves_seq(
                            columns@,
                        )[k] == l0[k] by {
                            assert(leaves_seq(columns@)[k] == leaves_seq(pre_cols)[k]);
                        }
                    }
                    i = i + 1;
                }
                proof {
                    lemma_loff_last(orig);
                    assert(orig.subrange(0, n as int) =~= orig);
                }
                proof {
                    lemma_same_plan_seq_pointwise(orig, columns@);
                }
                let out = ColumnAppender::Merged(DynamicMergedAppender { columns, max_dl, max_rl });
                proof {
                    lemma_apps_height_eq(
                        match out {
                            ColumnAppender::Merged(ref m2) => m2.columns@,
                            _ => orig,
                        },
                        orig,
                    );
                }
                (out, total)
            },
            ColumnAppender::Field(f) => {
                let BasicPgRowColumnAppender { column_i, appender, max_dl, max_rl } = *f;
                let (a2, sz) = appender.write_null(repetition_index, level);
                (
                    ColumnAppender::Field(
                        Box::new(
                            BasicPgRowColumnAppender { column_i, appender: a2, max_dl, max_rl },
                        ),
                    ),
                    sz,
                )
            },
            ColumnAppender::Decode(d) => {
                let DecodeAppender { decoder, inner, max_dl, max_rl } = *d;
                let (a2, sz) = inner.write_null(repetition_index, level);
                (
                    ColumnAppender::Decode(
                        Box::new(DecodeAppender { decoder, inner: a2, max_dl, max_rl }),
                    ),
                    sz,
                )
            },
        }
    }
}

/// An owned copy of a byte string.
pub fn clone_bytes(v: &Vec<u8>) -> (r: Vec<u8>)
    ensures
        r@ == v@,
{
    let r = crate::datatypes::utils::copy_range(v.as_slice(), 0, v.len());
    proof {
        assert(v@.subrange(0, v@.len() as int) =~= v@);
    }
    r
}

/// A NULL broadcast is one particular appender step.
pub proof fn lemma_null_step_is_step(
    pre: Seq<LeafModel>,
    post: Seq<LeafModel>,
    root: usize,
    level: int,
)
    requires
        tree_null_step(pre, post, root, level),
    ensures
        tree_step(pre, post, root),
        tree_grew(pre, post),
{
    assert forall|i: int| 0 <= i < pre.len() implies leaf_step(pre[i], #[trigger] post[i], root)
        && pre[i].history.len() < post[i].history.len() by {
        assert(null_step(pre[i], post[i], root, level));
    }
}

/// The elements a LIST appender feeds its inner appender: what each
/// source decodes a raw value into.  A PostgreSQL array yields one
/// single-cell pseudo-row or NULL per element; the sidecars yield the
/// shape integers; vectors yield their numeric elements; a sparse vector
/// yields one-based pairs.  `None` where the value is malformed, a
/// sparse position leaves the 32-bit range, or an element count exceeds
/// the machine.
pub open spec fn spec_elements(source: ArraySource, b: Seq<u8>) -> Option<Seq<PgV>> {
    match source {
        ArraySource::PgArray => match crate::datatypes::array::spec_parse_pg_array(b) {
            Option::None => Option::None,
            Option::Some(av) => if av.data.len() < usize::MAX - 1 {
                Option::Some(
                    av.data.map(
                        |i: int, cell: Option<Seq<u8>>|
                            match cell {
                                Option::Some(x) => PgV::Row(seq![Option::Some(x)]),
                                Option::None => PgV::Null,
                            },
                    ),
                )
            } else {
                Option::None
            },
        },
        ArraySource::PgArrayDims => match crate::datatypes::array::spec_parse_pg_array(b) {
            Option::None => Option::None,
            Option::Some(av) => if av.data.len() <= 0x7fffffff {
                Option::Some(
                    crate::datatypes::array::spec_sidecar_dims(av).map(
                        |i: int, x: i32| PgV::I32(x),
                    ),
                )
            } else {
                Option::None
            },
        },
        ArraySource::PgArrayLowerBounds => match crate::datatypes::array::spec_parse_pg_array(b) {
            Option::None => Option::None,
            Option::Some(av) => if av.data.len() <= 0x7fffffff {
                Option::Some(
                    crate::datatypes::array::spec_sidecar_lbs(av).map(
                        |i: int, x: i32| PgV::I32(x),
                    ),
                )
            } else {
                Option::None
            },
        },
        ArraySource::VectorF32 => if b.len() >= 4 && b.len() - 4
            >= 4 * crate::datatypes::utils::be_u16(b) {
            Option::Some(
                Seq::new(
                    crate::datatypes::utils::be_u16(b) as nat,
                    |i: int| PgV::F32Bits((crate::datatypes::utils::be_u32(b.skip(4 + 4 * i))) as u32),
                ),
            )
        } else {
            Option::None
        },
        ArraySource::VectorF16 => if b.len() >= 4 && b.len() - 4
            >= 2 * crate::datatypes::utils::be_u16(b) {
            Option::Some(
                Seq::new(
                    crate::datatypes::utils::be_u16(b) as nat,
                    |i: int| PgV::Raw(seq![b[4 + 2 * i], b[5 + 2 * i]]),
                ),
            )
        } else {
            Option::None
        },
        ArraySource::SparseVec => if b.len() >= 12 && crate::datatypes::utils::be_i32(b.skip(4))
            >= 0 && b.len() - 12 >= 8 * crate::datatypes::utils::be_i32(b.skip(4)) {
            let nnz = crate::datatypes::utils::be_i32(b.skip(4));
            if exists|i: int|
                0 <= i < nnz && !(0 <= #[trigger] crate::datatypes::utils::be_i32(
                    b.skip(12 + 4 * i),
                ) < 0x7fffffff) {
                Option::None
            } else {
                Option::Some(
                    Seq::new(
                        nnz as nat,
                        |i: int| PgV::Pair(
                            (crate::datatypes::utils::be_i32(b.skip(12 + 4 * i)) + 1) as i32,
                            (crate::datatypes::utils::be_u32(b.skip(12 + 4 * nnz + 4 * i))) as u32,
                        ),
                    ),
                )
            }
        } else {
            Option::None
        },
    }
}

/// Decode the elements of a raw list value according to the source.
#[verifier::loop_isolation(false)]
#[verifier::rlimit(100)]
pub fn array_elements(source: &ArraySource, b: &Vec<u8>) -> (r: Result<Vec<PgValue>, String>)
    ensures
        r is Ok <==> spec_elements(*source, b@) is Some,
        (r matches Result::Ok(es) ==> {
            &&& es@.len() < usize::MAX - 1
            &&& spec_elements(*source, b@) matches Option::Some(sp) && sp.len() == es@.len()
                && (forall|i: int| 0 <= i < es@.len() ==> (#[trigger] es@[i])@ == sp[i])
        }),
{
    let out: Vec<PgValue> = match source {
        ArraySource::PgArray => {
            let arr = crate::datatypes::array::parse_pg_array(b.as_slice());
            match arr {
                Result::Err(e) => {
                    return Result::Err(e);
                },
                Result::Ok(a) => {
                    let ghost av = a.view();
                    if a.data.len() >= usize::MAX - 1 {
                        return Result::Err(
                            crate::appenders::generic::err_string("array is too large"),
                        );
                    }
                    let mut es: Vec<PgValue> = Vec::new();
                    let ghost orig = a.data@;
                    let mut data = a.data;
                    let n = data.len();
                    let mut i: usize = 0;
                    while i < n
                        invariant
                            i <= n,
                            n == orig.len(),
                            data@.len() == n - i,
                            forall|j: int| 0 <= j < n - i ==> #[trigger] data@[j] == orig[j + i],
                            es@.len() == i,
                            forall|j: int|
                                0 <= j < i ==> (#[trigger] es@[j])@ == (match orig[j] {
                                    Option::Some(x) => PgV::Row(seq![Option::Some(x@)]),
                                    Option::None => PgV::Null,
                                }),
                        decreases n - i,
                    {
                        let cell = data.remove(0);
                        proof {
                            assert(cell == orig[i as int]);
                        }
                        match cell {
                            Option::Some(bytes) => {
                                // One element as a single-cell pseudo-row,
                                // the shape every planned element appender
                                // reads.
                                let ghost bb = bytes@;
                                let mut row: Vec<Option<Vec<u8>>> = Vec::new();
                                row.push(Option::Some(bytes));
                                proof {
                                    assert(crate::appenders::records::cells_view(row@)
                                        =~= seq![Option::Some(bb)]);
                                }
                                es.push(PgValue::Row(row));
                            },
                            Option::None => es.push(PgValue::Null),
                        }
                        i = i + 1;
                    }
                    proof {
                        match spec_elements(ArraySource::PgArray, b@) {
                            Option::Some(sp) => {
                                assert forall|j: int| 0 <= j < es@.len() implies (
                                #[trigger] es@[j])@ == sp[j] by {
                                    assert(av.data[j] == crate::appenders::records::cells_view(
                                        orig,
                                    )[j]);
                                }
                            },
                            Option::None => {
                                assert(false);
                            },
                        }
                    }
                    es
                },
            }
        },
        ArraySource::PgArrayDims => {
            let arr = crate::datatypes::array::parse_pg_array(b.as_slice());
            match arr {
                Result::Err(e) => {
                    return Result::Err(e);
                },
                Result::Ok(a) => {
                    if a.data.len() > 0x7fffffff {
                        return Result::Err(
                            crate::appenders::generic::err_string("array is too large"),
                        );
                    }
                    let dims = a.sidecar_dims();
                    let mut es: Vec<PgValue> = Vec::new();
                    let n = dims.len();
                    let mut i: usize = 0;
                    while i < n
                        invariant
                            i <= n,
                            n == dims@.len(),
                            es@.len() == i,
                            forall|j: int|
                                0 <= j < i ==> (#[trigger] es@[j])@ == PgV::I32(dims@[j]),
                        decreases n - i,
                    {
                        es.push(PgValue::I32(dims[i]));
                        i = i + 1;
                    }
                    es
                },
            }
        },
        ArraySource::PgArrayLowerBounds => {
            let arr = crate::datatypes::array::parse_pg_array(b.as_slice());
            match arr {
                Result::Err(e) => {
                    return Result::Err(e);
                },
                Result::Ok(a) => {
                    if a.data.len() > 0x7fffffff {
                        return Result::Err(
                            crate::appenders::generic::err_string("array is too large"),
                        );
                    }
                    let lbs = a.sidecar_lower_bounds();
                    let mut es: Vec<PgValue> = Vec::new();
                    let n = lbs.len();
                    let mut i: usize = 0;
                    while i < n
                        invariant
                            i <= n,
                            n == lbs@.len(),
                            es@.len() == i,
                            forall|j: int|
                                0 <= j < i ==> (#[trigger] es@[j])@ == PgV::I32(lbs@[j]),
                        decreases n - i,
                    {
                        es.push(PgValue::I32(lbs[i]));
                        i = i + 1;
                    }
                    es
                },
            }
        },
        ArraySource::VectorF32 => {
            let v = crate::datatypes::pgvector::parse_f32_vector(b.as_slice());
            match v {
                Result::Err(e) => {
                    return Result::Err(e);
                },
                Result::Ok(vv) => {
                    let mut es: Vec<PgValue> = Vec::new();
                    let n = vv.data.len();
                    let mut i: usize = 0;
                    while i < n
                        invariant
                            i <= n,
                            n == vv.data@.len(),
                            es@.len() == i,
                            forall|j: int|
                                0 <= j < i ==> (#[trigger] es@[j])@ == PgV::F32Bits(vv.data@[j]),
                        decreases n - i,
                    {
                        es.push(PgValue::F32Bits(vv.data[i]));
                        i = i + 1;
                    }
                    es
                },
            }
        },
        ArraySource::VectorF16 => {
            let v = crate::datatypes::pgvector::parse_f16_vector(b.as_slice());
            match v {
                Result::Err(e) => {
                    return Result::Err(e);
                },
                Result::Ok(vv) => {
                    let mut es: Vec<PgValue> = Vec::new();
                    let n = vv.data.len();
                    let mut i: usize = 0;
                    while i < n
                        invariant
                            i <= n,
                            n == vv.data@.len(),
                            es@.len() == i,
                            forall|j: int|
                                0 <= j < i ==> (#[trigger] es@[j])@ == PgV::Raw(
                                    seq![
                                        ((vv.data@[j] as int) / 256) as u8,
                                        ((vv.data@[j] as int) % 256) as u8,
                                    ],
                                ),
                        decreases n - i,
                    {
                        let x = vv.data[i];
                        let mut two: Vec<u8> = Vec::new();
                        two.push((x / 256) as u8);
                        two.push((x % 256) as u8);
                        proof {
                            assert(two@ =~= seq![
                                ((x as int) / 256) as u8,
                                ((x as int) % 256) as u8,
                            ]);
                        }
                        es.push(PgValue::Raw(two));
                        i = i + 1;
                    }
                    proof {
                        match spec_elements(ArraySource::VectorF16, b@) {
                            Option::Some(sp) => {
                                assert forall|j: int| 0 <= j < es@.len() implies (
                                #[trigger] es@[j])@ == sp[j] by {
                                    let g = crate::datatypes::utils::be_u16(b@.skip(4 + 2 * j));
                                    assert(b@.skip(4 + 2 * j)[0] == b@[4 + 2 * j]);
                                    assert(b@.skip(4 + 2 * j)[1] == b@[5 + 2 * j]);
                                    assert(vv.data@[j] as int == g);
                                    assert((g / 256) as u8 == b@[4 + 2 * j] && (g % 256) as u8
                                        == b@[5 + 2 * j]) by (nonlinear_arith)
                                        requires
                                            g == (b@[4 + 2 * j] as int) * 0x100 + (b@[5 + 2 * j] as int),
                                            0 <= b@[4 + 2 * j] < 256,
                                            0 <= b@[5 + 2 * j] < 256,
                                    ;
                                }
                            },
                            Option::None => {
                                assert(false);
                            },
                        }
                    }
                    es
                },
            }
        },
        ArraySource::SparseVec => {
            let v = crate::datatypes::pgvector::parse_sparse_vector(b.as_slice());
            match v {
                Result::Err(e) => {
                    return Result::Err(e);
                },
                Result::Ok(vv) => {
                    let mut es: Vec<PgValue> = Vec::new();
                    let n = vv.indices.len();
                    let ghost nnz = crate::datatypes::utils::be_i32(b@.skip(4));
                    let mut i: usize = 0;
                    while i < n
                        invariant
                            i <= n,
                            n == vv.indices@.len(),
                            n == vv.values@.len(),
                            n == nnz,
                            es@.len() == i,
                            forall|j: int|
                                0 <= j < i ==> 0 <= #[trigger] crate::datatypes::utils::be_i32(
                                    b@.skip(12 + 4 * j),
                                ) < 0x7fffffff,
                            forall|j: int|
                                0 <= j < i ==> (#[trigger] es@[j])@ == PgV::Pair(
                                    (crate::datatypes::utils::be_i32(b@.skip(12 + 4 * j))
                                        + 1) as i32,
                                    (crate::datatypes::utils::be_u32(
                                        b@.skip(12 + 4 * nnz + 4 * j),
                                    )) as u32,
                                ),
                        decreases n - i,
                    {
                        let idx = vv.indices[i];
                        if idx >= 0x7ffffffei32 + 1 || idx < 0 {
                            return Result::Err(
                                crate::appenders::generic::err_string(
                                    "sparse vector position out of range",
                                ),
                            );
                        }
                        // The wire keeps zero-based positions; the stored
                        // map uses the one-based textual convention.
                        es.push(PgValue::Pair(idx + 1, vv.values[i]));
                        i = i + 1;
                    }
                    es
                },
            }
        },
    };
    if out.len() >= usize::MAX - 1 {
        return Result::Err(crate::appenders::generic::err_string("array is too large"));
    }
    Result::Ok(out)
}

impl ColumnAppender {
    /// Distribute one decoded value into every leaf below this node.
    #[verifier::loop_isolation(false)]
    #[verifier::rlimit(100)]
    /// The list case of `copy_value`, split out: decode the elements of
    /// a raw list value and append one inner record per element, or the
    /// Dremel marker for an absent or empty list.
    #[verifier::loop_isolation(false)]
    #[verifier::rlimit(100)]
    #[verifier::spinoff_prover]
    fn copy_list_value(
        bx: Box<ArrayColumnAppender>,
        repetition_index: &LevelIndexList,
        value: &PgValue,
        warnings: &mut Vec<String>,
    ) -> (r: (Self, Result<usize, String>))
        requires
            app_wf((ColumnAppender::Arr(bx))),
            repetition_index.wf(),
            repetition_index@.len() == app_max_rl((ColumnAppender::Arr(bx))) + 1,
            root_ready(leaves((ColumnAppender::Arr(bx))), repetition_index@[0]),
        ensures
            app_wf(r.0),
            same_shape((ColumnAppender::Arr(bx)), r.0),
            same_plan((ColumnAppender::Arr(bx)), r.0),
            tree_step(leaves((ColumnAppender::Arr(bx))), leaves(r.0), repetition_index@[0]),
            r.1 is Ok ==> tree_grew(leaves((ColumnAppender::Arr(bx))), leaves(r.0)),
            old(warnings)@.is_prefix_of(final(warnings)@),
            (payload((ColumnAppender::Arr(bx)), value@) matches Option::Some(ps) ==> {
                &&& r.1 is Ok
                &&& forall|i: int|
                    0 <= i < leaves((ColumnAppender::Arr(bx))).len() ==> payload_appended(
                        leaves((ColumnAppender::Arr(bx)))[i],
                        #[trigger] leaves(r.0)[i],
                        ps[i],
                    )
            }),
            (flat((ColumnAppender::Arr(bx))) ==> (payload((ColumnAppender::Arr(bx)), value@) matches Option::Some(ps) ==> forall|i: int|
                0 <= i < leaves((ColumnAppender::Arr(bx))).len() ==> crate::appenders::records::appended1(
                    leaves((ColumnAppender::Arr(bx)))[i],
                    #[trigger] leaves(r.0)[i],
                    repetition_index@,
                    ps[i][0].dl,
                    ps[i][0].val,
                ))),
            ((ColumnAppender::Arr(bx)) matches ColumnAppender::Arr(b) ==> {
                &&& (value@ is Null ==> r.1 is Ok && tree_null_step(
                    leaves((ColumnAppender::Arr(bx))),
                    leaves(r.0),
                    repetition_index@[0],
                    if b.allow_null {
                        b.dl - 1
                    } else {
                        b.dl as int
                    },
                ))
                &&& (value@ matches PgV::Raw(bytes) ==> (spec_elements(b.source, bytes)
                    matches Option::Some(es) ==> (es.len() == 0 ==> r.1 is Ok && tree_null_step(
                    leaves((ColumnAppender::Arr(bx))),
                    leaves(r.0),
                    repetition_index@[0],
                    b.dl as int,
                ))))
            }),
            ((ColumnAppender::Arr(bx)) matches ColumnAppender::Field(f) ==> (value@ matches PgV::Row(cells) ==> ((
            f.column_i >= cells.len() || cells[f.column_i as int] is None) ==> r.1 is Ok
                && tree_null_step(
                leaves((ColumnAppender::Arr(bx))),
                leaves(r.0),
                repetition_index@[0],
                f.max_dl - 1,
            )))),
        ({
                let trig = bx.warn_multidim && !bx.warned_multidim && bx.source is PgArray
                    && (value@ matches PgV::Raw(bytes) && spec_elements(bx.source, bytes) is Some
                    && bytes.len() >= 4 && crate::datatypes::utils::be_i32(bytes) > 1);
                &&& (r.0 matches ColumnAppender::Arr(b2) ==> b2.warned_multidim == (
                bx.warned_multidim || trig))
                &&& (trig ==> {
                    &&& final(warnings)@.len() > old(warnings)@.len()
                    &&& (final(warnings)@[old(warnings)@.len() as int])@ == multidim_note_text(
                        bx.path@,
                        crate::datatypes::utils::be_i32(value@->Raw_0),
                        crate::datatypes::array::spec_parse_pg_array(value@->Raw_0)->Some_0.dims,
                        spec_elements(bx.source, value@->Raw_0)->Some_0.len() as int,
                    )
                })
            }),
        decreases app_height((ColumnAppender::Arr(bx))), 0int,
    {
        let ghost self_v = ColumnAppender::Arr(bx);
        let ghost root = repetition_index@[0];

                let ArrayColumnAppender {
                    inner,
                    dl,
                    rl,
                    allow_null,
                    allow_element_null,
                    source,
                    warn_multidim,
                    warned_multidim,
                    path,
                } =
                    *bx;
                let ghost l0i = leaves(inner);
                proof {
                    lemma_wf_leaves(inner);
                    lemma_tree_step_refl(l0i, root);
                }
                match value {
                    PgValue::Null => {
                        // An absent array: one marker one level below the
                        // list's own level when the list is nullable.
                        let lvl: i16 = if allow_null {
                            dl - 1
                        } else {
                            dl
                        };
                        let child = repetition_index.new_child();
                        let (inner2, sz) = inner.write_null(&child, lvl);
                        proof {
                            lemma_null_step_is_step(
                                l0i,
                                leaves(inner2),
                                root,
                                lvl as int,
                            );
                            lemma_marker_payload_appended(l0i, leaves(inner2), root, lvl as int);
                            assert(payload(self_v, value@) == Option::Some(
                                marker_payload(l0i.len(), lvl as int),
                            ));
                        }
                        (
                            ColumnAppender::Arr(
                                Box::new(
                                    ArrayColumnAppender {
                                        inner: inner2,
                                        dl,
                                        rl,
                                        allow_null,
                                        allow_element_null,
                                        source,
                                        warn_multidim,
                                        warned_multidim,
                                        path,
                                    },
                                ),
                            ),
                            Result::Ok(sz),
                        )
                    },
                    PgValue::Raw(bytes) => {
                        proof {
                            lemma_same_plan_refl(inner);
                        }
                        match array_elements(&source, bytes) {
                            Result::Err(e) => {
                                proof {
                                    assert(payload(self_v, value@) is None);
                                }
                                (
                                    ColumnAppender::Arr(
                                        Box::new(
                                            ArrayColumnAppender {
                                                inner,
                                                dl,
                                                rl,
                                                allow_null,
                                                allow_element_null,
                                                source,
                                                warn_multidim,
                                                warned_multidim,
                                                path,
                                            },
                                        ),
                                    ),
                                    Result::Err(e),
                                )
                            },
                            Result::Ok(elems) => {
                                let ghost es = spec_elements(source, bytes@)->Some_0;
                                let ghost lpo = list_payload(
                                    inner,
                                    es,
                                    dl as int,
                                    rl as int,
                                    allow_element_null,
                                );
                                let ghost ok = es.len() > 0 && flat(inner) && lpo is Some;
                                proof {
                                    if payload(self_v, value@) is Some && es.len() > 0 {
                                        assert(ok);
                                    }
                                }
                                let mut warned_now = warned_multidim;
                                let is_pg_array = match &source {
                                    ArraySource::PgArray => true,
                                    _ => false,
                                };
                                let ghost trig = warn_multidim && !warned_multidim
                                    && source is PgArray && spec_elements(source, bytes@) is Some
                                    && bytes@.len() >= 4 && crate::datatypes::utils::be_i32(
                                    bytes@,
                                ) > 1;
                                if warn_multidim && !warned_multidim && is_pg_array
                                    && bytes.len() >= 4 {
                                    let nd = crate::datatypes::utils::read_i32_at(
                                        bytes.as_slice(),
                                        0,
                                    );
                                    if nd > 1 {
                                        match crate::datatypes::array::parse_pg_array(
                                            bytes.as_slice(),
                                        ) {
                                            Result::Ok(a) => {
                                                let m = multidim_note(&path, nd, &a.dims, elems.len());
                                                proof {
                                                    assert(m@ == multidim_note_text(
                                                        path@,
                                                        crate::datatypes::utils::be_i32(bytes@),
                                                        crate::datatypes::array::spec_parse_pg_array(
                                                            bytes@,
                                                        )->Some_0.dims,
                                                        spec_elements(
                                                            source,
                                                            bytes@,
                                                        )->Some_0.len() as int,
                                                    ));
                                                }
                                                warnings.push(m);
                                                warned_now = true;
                                            },
                                            Result::Err(_) => {},
                                        }
                                    }
                                }
                                let ghost w_loop = warnings@;
                                proof {
                                    assert(warned_now == (warned_multidim || trig));
                                    if trig {
                                        assert(w_loop.len() > old(warnings)@.len());
                                        assert((w_loop[old(warnings)@.len() as int])@
                                            == multidim_note_text(
                                            path@,
                                            crate::datatypes::utils::be_i32(bytes@),
                                            crate::datatypes::array::spec_parse_pg_array(
                                                bytes@,
                                            )->Some_0.dims,
                                            spec_elements(source, bytes@)->Some_0.len() as int,
                                        ));
                                    }
                                }
                                let mut child = repetition_index.new_child();
                                proof {
                                    lemma_same_plan_refl(inner);
                                    assert(es.subrange(0, 0) =~= Seq::<PgV>::empty());
                                }
                                let mut cur = inner;
                                let mut emitted: usize = 0;
                                let mut total: usize = 0;
                                let n = elems.len();
                                let mut i: usize = 0;
                                while i < n
                                    invariant
                                        i <= n,
                                        n == elems@.len(),
                                        n < usize::MAX - 1,
                                        app_wf(cur),
                                        same_shape(inner, cur),
                                        same_plan(inner, cur),
                                        tree_step(l0i, leaves(cur), root),
                                        emitted <= i,
                                        i == 0 ==> cur == inner,
                                        emitted > 0 ==> tree_grew(l0i, leaves(cur)),
                                        child.wf(),
                                        child@.len() == repetition_index@.len() + 1,
                                        child@[0] == root,
                                        child@ =~= repetition_index@.push(emitted),
                                        n == es.len(),
                                        old(warnings)@.is_prefix_of(warnings@),
                                        w_loop.is_prefix_of(warnings@),
                                        ok ==> {
                                            &&& emitted == i
                                            &&& list_payload(
                                                inner,
                                                es.subrange(0, i as int),
                                                dl as int,
                                                rl as int,
                                                allow_element_null,
                                            ) is Some
                                            &&& forall|k: int|
                                                0 <= k < l0i.len() ==> payload_appended(
                                                    l0i[k],
                                                    (#[trigger] leaves(cur)[k]),
                                                    list_payload(
                                                        inner,
                                                        es.subrange(0, i as int),
                                                        dl as int,
                                                        rl as int,
                                                        allow_element_null,
                                                    )->Some_0[k],
                                                )
                                            &&& (i >= 1 ==> forall|k: int|
                                                0 <= k < l0i.len() ==> (#[trigger] leaves(
                                                    cur,
                                                )[k]).mark =~= repetition_index@.push(
                                                    (i - 1) as usize,
                                                ))
                                        },
                                    decreases n - i,
                                {
                                    proof {
                                        lemma_wf_leaves(cur);
                                    }
                                    let ghost pre_leaves = leaves(cur);
                                    let v = &elems[i];
                                    let is_null = match v {
                                        PgValue::Null => true,
                                        _ => false,
                                    };
                                    if is_null && !allow_element_null {
                                        // PostgreSQL arrays always allow
                                        // element nulls; a skipped element
                                        // leaves no record at all.
                                        proof {
                                            if ok {
                                                lemma_list_payload_step(
                                                    inner,
                                                    es,
                                                    dl as int,
                                                    rl as int,
                                                    allow_element_null,
                                                    i as int,
                                                );
                                                assert(v@ == es[i as int]);
                                                assert(false);
                                            }
                                        }
                                    } else {
                                        if is_null {
                                            proof {
                                                if ok {
                                                    lemma_same_plan_payload(inner, cur, PgV::Null);
                                                }
                                            }
                                            let (c2, sz) = cur.write_null(&child, dl + 1);
                                            proof {
                                                lemma_same_plan_trans(inner, cur, c2);
                                                lemma_null_step_is_step(
                                                    pre_leaves,
                                                    leaves(c2),
                                                    root,
                                                    dl + 1,
                                                );
                                                lemma_tree_step_trans(
                                                    l0i,
                                                    pre_leaves,
                                                    leaves(c2),
                                                    root,
                                                );
                                                if ok {
                                                    lemma_list_payload_step(
                                                        inner,
                                                        es,
                                                        dl as int,
                                                        rl as int,
                                                        allow_element_null,
                                                        i as int,
                                                    );
                                                    assert(v@ == es[i as int]);
                                                    let pre_lp = list_payload(
                                                        inner,
                                                        es.subrange(0, i as int),
                                                        dl as int,
                                                        rl as int,
                                                        allow_element_null,
                                                    )->Some_0;
                                                    let post_lp = list_payload(
                                                        inner,
                                                        es.subrange(0, i as int + 1),
                                                        dl as int,
                                                        rl as int,
                                                        allow_element_null,
                                                    )->Some_0;
                                                    let tag: Option<int> = if i == 0 {
                                                        Option::None
                                                    } else {
                                                        Option::Some(rl + 1)
                                                    };
                                                    assert forall|k: int|
                                                        0 <= k < l0i.len() implies payload_appended(
                                                        l0i[k],
                                                        (#[trigger] leaves(c2)[k]),
                                                        post_lp[k],
                                                    ) by {
                                                        let pr = PayloadRec {
                                                            dl: dl + 1,
                                                            rl: tag,
                                                            val: Option::None,
                                                        };
                                                        if i >= 1 {
                                                            lemma_diff_level_sibling(
                                                                repetition_index@,
                                                                (i - 1) as usize,
                                                                i as usize,
                                                            );
                                                            assert(leaves(cur)[k].mark
                                                                =~= repetition_index@.push(
                                                                (i - 1) as usize,
                                                            ));
                                                        }
                                                        assert(crate::appenders::records::appended1(
                                                            leaves(cur)[k],
                                                            leaves(c2)[k],
                                                            child@,
                                                            dl + 1,
                                                            Option::None,
                                                        ));
                                                        lemma_payload_snoc(
                                                            l0i[k],
                                                            leaves(cur)[k],
                                                            leaves(c2)[k],
                                                            pre_lp[k],
                                                            child@,
                                                            pr,
                                                        );
                                                        assert(element_payload(
                                                            inner,
                                                            es[i as int],
                                                            dl as int,
                                                            allow_element_null,
                                                        )->Some_0[k] == PayloadRec {
                                                            dl: dl + 1,
                                                            rl: Option::None,
                                                            val: Option::None,
                                                        });
                                                        assert(post_lp[k] == pre_lp[k].push(pr));
                                                    }
                                                    assert forall|k: int|
                                                        0 <= k < l0i.len() implies (#[trigger] leaves(
                                                        c2,
                                                    )[k]).mark =~= repetition_index@.push(
                                                        i as usize,
                                                    ) by {
                                                        assert(crate::appenders::records::appended1(
                                                            leaves(cur)[k],
                                                            leaves(c2)[k],
                                                            child@,
                                                            dl + 1,
                                                            Option::None,
                                                        ));
                                                        assert(child@ =~= repetition_index@.push(
                                                            i as usize,
                                                        ));
                                                    }
                                                }
                                            }
                                            cur = c2;
                                            total = crate::appenders::generic::usize_sat_add(
                                                total,
                                                sz,
                                            );
                                        } else {
                                            proof {
                                                if ok {
                                                    lemma_list_payload_step(
                                                        inner,
                                                        es,
                                                        dl as int,
                                                        rl as int,
                                                        allow_element_null,
                                                        i as int,
                                                    );
                                                    assert(v@ == es[i as int]);
                                                    lemma_same_plan_payload(
                                                        inner,
                                                        cur,
                                                        es[i as int],
                                                    );
                                                }
                                            }
                                            let ghost w_pre2 = warnings@;
                                            let (c2, res) = cur.copy_value(&child, v, warnings);
                                            proof {
                                                lemma_prefix_trans(old(warnings)@, w_pre2, warnings@);
                                                lemma_prefix_trans(w_loop, w_pre2, warnings@);
                                                lemma_same_plan_trans(inner, cur, c2);
                                                lemma_tree_step_trans(
                                                    l0i,
                                                    pre_leaves,
                                                    leaves(c2),
                                                    root,
                                                );
                                                if ok {
                                                    let ps_in = payload(inner, es[i as int])->Some_0;
                                                    let pre_lp = list_payload(
                                                        inner,
                                                        es.subrange(0, i as int),
                                                        dl as int,
                                                        rl as int,
                                                        allow_element_null,
                                                    )->Some_0;
                                                    let post_lp = list_payload(
                                                        inner,
                                                        es.subrange(0, i as int + 1),
                                                        dl as int,
                                                        rl as int,
                                                        allow_element_null,
                                                    )->Some_0;
                                                    let h = element_payload(
                                                        inner,
                                                        es[i as int],
                                                        dl as int,
                                                        allow_element_null,
                                                    )->Some_0;
                                                    let tag: Option<int> = if i == 0 {
                                                        Option::None
                                                    } else {
                                                        Option::Some(rl + 1)
                                                    };
                                                    assert(payload(cur, v@) is Some);
                                                    assert forall|k: int|
                                                        0 <= k < l0i.len() implies payload_appended(
                                                        l0i[k],
                                                        (#[trigger] leaves(c2)[k]),
                                                        post_lp[k],
                                                    ) by {
                                                        assert(h[k] == ps_in[k][0]);
                                                        let pr = PayloadRec {
                                                            dl: h[k].dl,
                                                            rl: tag,
                                                            val: h[k].val,
                                                        };
                                                        if i >= 1 {
                                                            lemma_diff_level_sibling(
                                                                repetition_index@,
                                                                (i - 1) as usize,
                                                                i as usize,
                                                            );
                                                            assert(leaves(cur)[k].mark
                                                                =~= repetition_index@.push(
                                                                (i - 1) as usize,
                                                            ));
                                                        }
                                                        assert(crate::appenders::records::appended1(
                                                            leaves(cur)[k],
                                                            leaves(c2)[k],
                                                            child@,
                                                            ps_in[k][0].dl,
                                                            ps_in[k][0].val,
                                                        ));
                                                        lemma_payload_snoc(
                                                            l0i[k],
                                                            leaves(cur)[k],
                                                            leaves(c2)[k],
                                                            pre_lp[k],
                                                            child@,
                                                            pr,
                                                        );
                                                        assert(post_lp[k] == pre_lp[k].push(pr));
                                                    }
                                                    assert forall|k: int|
                                                        0 <= k < l0i.len() implies (#[trigger] leaves(
                                                        c2,
                                                    )[k]).mark =~= repetition_index@.push(
                                                        i as usize,
                                                    ) by {
                                                        assert(crate::appenders::records::appended1(
                                                            leaves(cur)[k],
                                                            leaves(c2)[k],
                                                            child@,
                                                            ps_in[k][0].dl,
                                                            ps_in[k][0].val,
                                                        ));
                                                        assert(child@ =~= repetition_index@.push(
                                                            i as usize,
                                                        ));
                                                    }
                                                }
                                            }
                                            match res {
                                                Result::Err(e) => {
                                                    proof {
                                                        if payload(self_v, value@) is Some {
                                                            assert(ok);
                                                            assert(payload(cur, v@) is Some);
                                                            assert(false);
                                                        }
                                                    }
                                                    return (
                                                        ColumnAppender::Arr(
                                                            Box::new(
                                                                ArrayColumnAppender {
                                                                    inner: c2,
                                                                    dl,
                                                                    rl,
                                                                    allow_null,
                                                                    allow_element_null,
                                                                    source,
                                                                    warn_multidim,
                                                                    warned_multidim: warned_now,
                                                                    path,
                                                                },
                                                            ),
                                                        ),
                                                        Result::Err(e),
                                                    );
                                                },
                                                Result::Ok(sz) => {
                                                    total =
                                                        crate::appenders::generic::usize_sat_add(
                                                        total,
                                                        sz,
                                                    );
                                                },
                                            }
                                            cur = c2;
                                        }
                                        child.inc();
                                        emitted = emitted + 1;
                                        proof {
                                            assert(child@ =~= repetition_index@.push(emitted));
                                        }
                                    }
                                    i = i + 1;
                                }
                                if emitted == 0 {
                                    proof {
                                        lemma_wf_leaves(cur);
                                    }
                                    let ghost pre_leaves = leaves(cur);
                                    // An empty list: one marker at the
                                    // list's own level.
                                    let (c2, sz) = cur.write_null(&child, dl);
                                    proof {
                                        lemma_same_plan_trans(inner, cur, c2);
                                        lemma_null_step_is_step(
                                            pre_leaves,
                                            leaves(c2),
                                            root,
                                            dl as int,
                                        );
                                        lemma_tree_step_trans(l0i, pre_leaves, leaves(c2), root);
                                        if payload(self_v, value@) is Some {
                                            assert(es.len() == 0);
                                            assert(pre_leaves == l0i);
                                            lemma_marker_payload_appended(
                                                pre_leaves,
                                                leaves(c2),
                                                root,
                                                dl as int,
                                            );
                                            assert(payload(self_v, value@) == Option::Some(
                                                marker_payload(l0i.len(), dl as int),
                                            ));
                                        }
                                    }
                                    cur = c2;
                                    total = crate::appenders::generic::usize_sat_add(total, sz);
                                }
                                proof {
                                    if payload(self_v, value@) is Some && es.len() > 0 {
                                        assert(ok);
                                        assert(es.subrange(0, n as int) =~= es);
                                        assert(payload(self_v, value@) == list_payload(
                                            inner,
                                            es,
                                            dl as int,
                                            rl as int,
                                            allow_element_null,
                                        ));
                                    }
                                }
                                (
                                    ColumnAppender::Arr(
                                        Box::new(
                                            ArrayColumnAppender {
                                                inner: cur,
                                                dl,
                                                rl,
                                                allow_null,
                                                allow_element_null,
                                                source,
                                                warn_multidim,
                                                warned_multidim: warned_now,
                                                path,
                                            },
                                        ),
                                    ),
                                    Result::Ok(total),
                                )
                            },
                        }
                    },
                    _ => {
                        proof {
                            lemma_same_plan_refl(inner);
                            assert(payload(self_v, value@) is None);
                        }
                        (
                            ColumnAppender::Arr(
                                Box::new(
                                    ArrayColumnAppender {
                                        inner,
                                        dl,
                                        rl,
                                        allow_null,
                                        allow_element_null,
                                        source,
                                        warn_multidim,
                                        warned_multidim,
                                        path,
                                    },
                                ),
                            ),
                            Result::Err(
                                crate::appenders::generic::err_string(
                                    "value does not fit the planned list column",
                                ),
                            ),
                        )
                    },
                }
    }

    /// The struct case of `copy_value`, split out: broadcast one value to
    /// every child column in order; the first child error is reported
    /// after every child has taken its step.
    #[verifier::loop_isolation(false)]
    #[verifier::rlimit(100)]
    fn copy_merged_value(
        m: DynamicMergedAppender,
        repetition_index: &LevelIndexList,
        value: &PgValue,
        warnings: &mut Vec<String>,
    ) -> (r: (Self, Result<usize, String>))
        requires
            app_wf((ColumnAppender::Merged(m))),
            repetition_index.wf(),
            repetition_index@.len() == app_max_rl((ColumnAppender::Merged(m))) + 1,
            root_ready(leaves((ColumnAppender::Merged(m))), repetition_index@[0]),
        ensures
            app_wf(r.0),
            same_shape((ColumnAppender::Merged(m)), r.0),
            same_plan((ColumnAppender::Merged(m)), r.0),
            tree_step(leaves((ColumnAppender::Merged(m))), leaves(r.0), repetition_index@[0]),
            r.1 is Ok ==> tree_grew(leaves((ColumnAppender::Merged(m))), leaves(r.0)),
            old(warnings)@.is_prefix_of(final(warnings)@),
            (payload((ColumnAppender::Merged(m)), value@) matches Option::Some(ps) ==> {
                &&& r.1 is Ok
                &&& forall|i: int|
                    0 <= i < leaves((ColumnAppender::Merged(m))).len() ==> payload_appended(
                        leaves((ColumnAppender::Merged(m)))[i],
                        #[trigger] leaves(r.0)[i],
                        ps[i],
                    )
            }),
            (flat((ColumnAppender::Merged(m))) ==> (payload((ColumnAppender::Merged(m)), value@) matches Option::Some(ps) ==> forall|i: int|
                0 <= i < leaves((ColumnAppender::Merged(m))).len() ==> crate::appenders::records::appended1(
                    leaves((ColumnAppender::Merged(m)))[i],
                    #[trigger] leaves(r.0)[i],
                    repetition_index@,
                    ps[i][0].dl,
                    ps[i][0].val,
                ))),
            ((ColumnAppender::Merged(m)) matches ColumnAppender::Arr(b) ==> {
                &&& (value@ is Null ==> r.1 is Ok && tree_null_step(
                    leaves((ColumnAppender::Merged(m))),
                    leaves(r.0),
                    repetition_index@[0],
                    if b.allow_null {
                        b.dl - 1
                    } else {
                        b.dl as int
                    },
                ))
                &&& (value@ matches PgV::Raw(bytes) ==> (spec_elements(b.source, bytes)
                    matches Option::Some(es) ==> (es.len() == 0 ==> r.1 is Ok && tree_null_step(
                    leaves((ColumnAppender::Merged(m))),
                    leaves(r.0),
                    repetition_index@[0],
                    b.dl as int,
                ))))
            }),
            ((ColumnAppender::Merged(m)) matches ColumnAppender::Field(f) ==> (value@ matches PgV::Row(cells) ==> ((
            f.column_i >= cells.len() || cells[f.column_i as int] is None) ==> r.1 is Ok
                && tree_null_step(
                leaves((ColumnAppender::Merged(m))),
                leaves(r.0),
                repetition_index@[0],
                f.max_dl - 1,
            )))),
        decreases app_height((ColumnAppender::Merged(m))), 0int,
    {
        let ghost self_v = ColumnAppender::Merged(m);
        let ghost root = repetition_index@[0];

                let DynamicMergedAppender { mut columns, max_dl, max_rl } = m;
                let ghost orig = columns@;
                let ghost l0 = leaves_seq(orig);
                let mut total: usize = 0;
                let n = columns.len();
                let mut i: usize = 0;
                proof {
                    lemma_loff_last(orig);
                }
                let ghost pso = payload_seq(orig, value@);
                let mut failed: Option<String> = Option::None;
                while i < n
                    invariant
                        i <= n,
                        columns@.len() == n,
                        forall|j: int|
                            0 <= j < n ==> #[trigger] app_height(columns@[j]) == app_height(
                                orig[j],
                            ),
                        forall|j: int| 0 <= j < n ==> app_wf(#[trigger] columns@[j]),
                        forall|j: int|
                            0 <= j < n ==> app_max_dl(#[trigger] columns@[j]) == app_max_dl(
                                orig[j],
                            ),
                        forall|j: int|
                            0 <= j < n ==> app_max_rl(#[trigger] columns@[j]) == app_max_rl(
                                orig[j],
                            ),
                        forall|j: int| i <= j < n ==> columns@[j] == orig[j],
                        forall|j: int| 0 <= j < i ==> same_plan(#[trigger] orig[j], columns@[j]),
                        forall|j: int|
                            0 <= j < n ==> #[trigger] leaves(columns@[j]).len() == leaves(
                                orig[j],
                            ).len(),
                        leaves_seq(columns@).len() == l0.len(),
                        forall|k: int|
                            0 <= k < l0.len() ==> leaf_step(
                                l0[k],
                                #[trigger] leaves_seq(columns@)[k],
                                root,
                            ),
                        failed is None ==> forall|k: int|
                            0 <= k < loff(orig, i as int) ==> l0[k].history.len() < (
                            #[trigger] leaves_seq(columns@)[k]).history.len(),
                        pso is Some ==> failed is None,
                        pso is Some ==> forall|k: int|
                            0 <= k < loff(orig, i as int) ==> payload_appended(
                                l0[k],
                                (#[trigger] leaves_seq(columns@)[k]),
                                pso->Some_0[k],
                            ),
                        flat(self_v) && pso is Some ==> forall|k: int|
                            0 <= k < loff(orig, i as int)
                                ==> crate::appenders::records::appended1(
                                l0[k],
                                (#[trigger] leaves_seq(columns@)[k]),
                                repetition_index@,
                                pso->Some_0[k][0].dl,
                                pso->Some_0[k][0].val,
                            ),
                        forall|k: int|
                            loff(orig, i as int) <= k < l0.len() ==> #[trigger] leaves_seq(
                                columns@,
                            )[k] == l0[k],
                        old(warnings)@.is_prefix_of(warnings@),
                    decreases n - i,
                {
                    let ghost pre_cols = columns@;
                    let ghost w_pre = warnings@;
                    let c = columns.remove(i);
                    proof {
                        lemma_apps_height_elem(orig, i as int);
                        lemma_leaves_seq_at(orig, i as int);
                        lemma_loff_step(orig, i as int);
                        assert(c == orig[i as int]);
                        assert(leaves(self_v) == l0);
                        assert forall|k: int| 0 <= k < leaves(c).len() implies (
                        #[trigger] leaves(c)[k]).mark[0] != root || leaves(c)[k].max_rl >= 1 by {
                            assert(l0[loff(orig, i as int) + k] == leaves(orig[i as int])[k]);
                        }
                    }
                    proof {
                        if pso is Some {
                            lemma_payload_seq_at(orig, value@, i as int);
                            lemma_payload_len(c, value@);
                        }
                        if flat(self_v) {
                            lemma_flat_seq_elem(orig, i as int);
                        }
                    }
                    let (c2, res) = c.copy_value(repetition_index, value, warnings);
                    proof {
                        lemma_prefix_trans(old(warnings)@, w_pre, warnings@);
                    }
                    match res {
                        Result::Ok(sz) => {
                            total = crate::appenders::generic::usize_sat_add(total, sz);
                        },
                        Result::Err(e) => {
                            proof {
                                if pso is Some {
                                    assert(payload(c, value@) is Some);
                                    assert(false);
                                }
                            }
                            if failed.is_none() {
                                failed = Option::Some(e);
                            }
                        },
                    }
                    columns.insert(i, c2);
                    proof {
                        assert(columns@ =~= pre_cols.update(i as int, c2));
                        assert(pre_cols.subrange(0, i as int) =~= columns@.subrange(0, i as int));
                        assert forall|j: int|
                            0 <= j < i implies #[trigger] leaves(
                            pre_cols.subrange(0, i as int)[j],
                        ).len() == leaves(orig.subrange(0, i as int)[j]).len() by {
                            assert(pre_cols.subrange(0, i as int)[j] == pre_cols[j]);
                            assert(orig.subrange(0, i as int)[j] == orig[j]);
                            assert(leaves(pre_cols[j]).len() == leaves(orig[j]).len());
                        }
                        lemma_leaves_seq_len_eq(
                            pre_cols.subrange(0, i as int),
                            orig.subrange(0, i as int),
                        );
                        assert(loff(pre_cols, i as int) == loff(orig, i as int));
                        lemma_leaves_seq_update(pre_cols, columns@, i as int);
                        lemma_leaves_seq_at(pre_cols, i as int);
                        assert(same_plan(c, c2));
                        assert forall|j: int| 0 <= j < i + 1 implies same_plan(
                            #[trigger] orig[j],
                            columns@[j],
                        ) by {
                            if j < i {
                                assert(columns@[j] == pre_cols[j]);
                            } else {
                                assert(columns@[j] == c2);
                            }
                        }
                        assert forall|k: int|
                            0 <= k < l0.len() implies leaf_step(
                            l0[k],
                            #[trigger] leaves_seq(columns@)[k],
                            root,
                        ) by {
                            if k < loff(orig, i as int) || k >= loff(orig, i as int + 1) {
                                assert(leaves_seq(columns@)[k] == leaves_seq(pre_cols)[k]);
                            } else {
                                let kk = k - loff(orig, i as int);
                                assert(leaves_seq(columns@)[loff(pre_cols, i as int) + kk]
                                    == leaves(c2)[kk]);
                                assert(leaves_seq(pre_cols)[k] == l0[k]);
                                assert(l0[k] == leaves(c)[kk]) by {
                                    assert(l0[loff(orig, i as int) + kk] == leaves(
                                        orig[i as int],
                                    )[kk]);
                                }
                                assert(leaf_step(leaves(c)[kk], leaves(c2)[kk], root));
                            }
                        }
                        assert forall|k: int|
                            loff(orig, i as int + 1) <= k < l0.len() implies #[trigger] leaves_seq(
                            columns@,
                        )[k] == l0[k] by {
                            assert(leaves_seq(columns@)[k] == leaves_seq(pre_cols)[k]);
                        }
                        if failed is None {
                            assert forall|k: int|
                                0 <= k < loff(orig, i as int + 1) implies l0[k].history.len() < (
                                #[trigger] leaves_seq(columns@)[k]).history.len() by {
                                if k < loff(orig, i as int) {
                                    assert(leaves_seq(columns@)[k] == leaves_seq(pre_cols)[k]);
                                } else {
                                    let kk = k - loff(orig, i as int);
                                    assert(leaves_seq(columns@)[loff(pre_cols, i as int) + kk]
                                        == leaves(c2)[kk]);
                                    assert(leaves_seq(pre_cols)[k] == l0[k]);
                                    assert(l0[k] == leaves(c)[kk]) by {
                                        assert(l0[loff(orig, i as int) + kk] == leaves(
                                            orig[i as int],
                                        )[kk]);
                                    }
                                    assert(leaves(c)[kk].history.len() < leaves(
                                        c2,
                                    )[kk].history.len());
                                }
                            }
                        }
                        if pso is Some {
                            assert forall|k: int|
                                0 <= k < loff(orig, i as int + 1) implies payload_appended(
                                l0[k],
                                (#[trigger] leaves_seq(columns@)[k]),
                                pso->Some_0[k],
                            ) by {
                                if k < loff(orig, i as int) {
                                    assert(leaves_seq(columns@)[k] == leaves_seq(pre_cols)[k]);
                                } else {
                                    let kk = k - loff(orig, i as int);
                                    assert(leaves_seq(columns@)[loff(pre_cols, i as int) + kk]
                                        == leaves(c2)[kk]);
                                    assert(leaves_seq(pre_cols)[k] == l0[k]);
                                    assert(l0[k] == leaves(c)[kk]) by {
                                        assert(l0[loff(orig, i as int) + kk] == leaves(
                                            orig[i as int],
                                        )[kk]);
                                    }
                                    assert(pso->Some_0[k] == payload(c, value@)->Some_0[kk]);
                                    assert(payload_appended(
                                        leaves(c)[kk],
                                        leaves(c2)[kk],
                                        payload(c, value@)->Some_0[kk],
                                    ));
                                }
                            }
                            if flat(self_v) {
                                assert forall|k: int|
                                    0 <= k < loff(orig, i as int + 1)
                                        implies crate::appenders::records::appended1(
                                    l0[k],
                                    (#[trigger] leaves_seq(columns@)[k]),
                                    repetition_index@,
                                    pso->Some_0[k][0].dl,
                                    pso->Some_0[k][0].val,
                                ) by {
                                    if k < loff(orig, i as int) {
                                        assert(leaves_seq(columns@)[k] == leaves_seq(pre_cols)[k]);
                                    } else {
                                        let kk = k - loff(orig, i as int);
                                        assert(leaves_seq(columns@)[loff(pre_cols, i as int) + kk]
                                            == leaves(c2)[kk]);
                                        assert(leaves_seq(pre_cols)[k] == l0[k]);
                                        assert(l0[k] == leaves(c)[kk]) by {
                                            assert(l0[loff(orig, i as int) + kk] == leaves(
                                                orig[i as int],
                                            )[kk]);
                                        }
                                        assert(pso->Some_0[k] == payload(c, value@)->Some_0[kk]);
                                        assert(crate::appenders::records::appended1(
                                            leaves(c)[kk],
                                            leaves(c2)[kk],
                                            repetition_index@,
                                            payload(c, value@)->Some_0[kk][0].dl,
                                            payload(c, value@)->Some_0[kk][0].val,
                                        ));
                                    }
                                }
                            }
                        }
                    }
                    i = i + 1;
                }
                proof {
                    lemma_loff_last(orig);
                }
                proof {
                    lemma_same_plan_seq_pointwise(orig, columns@);
                }
                let out = ColumnAppender::Merged(DynamicMergedAppender { columns, max_dl, max_rl });
                proof {
                    lemma_apps_height_eq(
                        match out {
                            ColumnAppender::Merged(ref m2) => m2.columns@,
                            _ => orig,
                        },
                        orig,
                    );
                }
                match failed {
                    Option::Some(e) => (out, Result::Err(e)),
                    Option::None => (out, Result::Ok(total)),
                }
    }

    /// The row-cell case of `copy_value`, split out: pick one cell of a
    /// row and hand it down, or a NULL marker where the cell is absent.
    #[verifier::rlimit(100)]
    fn copy_field_value(
        f: Box<BasicPgRowColumnAppender>,
        repetition_index: &LevelIndexList,
        value: &PgValue,
        warnings: &mut Vec<String>,
    ) -> (r: (Self, Result<usize, String>))
        requires
            app_wf((ColumnAppender::Field(f))),
            repetition_index.wf(),
            repetition_index@.len() == app_max_rl((ColumnAppender::Field(f))) + 1,
            root_ready(leaves((ColumnAppender::Field(f))), repetition_index@[0]),
        ensures
            app_wf(r.0),
            same_shape((ColumnAppender::Field(f)), r.0),
            same_plan((ColumnAppender::Field(f)), r.0),
            tree_step(leaves((ColumnAppender::Field(f))), leaves(r.0), repetition_index@[0]),
            r.1 is Ok ==> tree_grew(leaves((ColumnAppender::Field(f))), leaves(r.0)),
            old(warnings)@.is_prefix_of(final(warnings)@),
            (payload((ColumnAppender::Field(f)), value@) matches Option::Some(ps) ==> {
                &&& r.1 is Ok
                &&& forall|i: int|
                    0 <= i < leaves((ColumnAppender::Field(f))).len() ==> payload_appended(
                        leaves((ColumnAppender::Field(f)))[i],
                        #[trigger] leaves(r.0)[i],
                        ps[i],
                    )
            }),
            (flat((ColumnAppender::Field(f))) ==> (payload((ColumnAppender::Field(f)), value@) matches Option::Some(ps) ==> forall|i: int|
                0 <= i < leaves((ColumnAppender::Field(f))).len() ==> crate::appenders::records::appended1(
                    leaves((ColumnAppender::Field(f)))[i],
                    #[trigger] leaves(r.0)[i],
                    repetition_index@,
                    ps[i][0].dl,
                    ps[i][0].val,
                ))),
            ((ColumnAppender::Field(f)) matches ColumnAppender::Arr(b) ==> {
                &&& (value@ is Null ==> r.1 is Ok && tree_null_step(
                    leaves((ColumnAppender::Field(f))),
                    leaves(r.0),
                    repetition_index@[0],
                    if b.allow_null {
                        b.dl - 1
                    } else {
                        b.dl as int
                    },
                ))
                &&& (value@ matches PgV::Raw(bytes) ==> (spec_elements(b.source, bytes)
                    matches Option::Some(es) ==> (es.len() == 0 ==> r.1 is Ok && tree_null_step(
                    leaves((ColumnAppender::Field(f))),
                    leaves(r.0),
                    repetition_index@[0],
                    b.dl as int,
                ))))
            }),
            ((ColumnAppender::Field(f)) matches ColumnAppender::Field(f) ==> (value@ matches PgV::Row(cells) ==> ((
            f.column_i >= cells.len() || cells[f.column_i as int] is None) ==> r.1 is Ok
                && tree_null_step(
                leaves((ColumnAppender::Field(f))),
                leaves(r.0),
                repetition_index@[0],
                f.max_dl - 1,
            )))),
        decreases app_height((ColumnAppender::Field(f))), 0int,
    {
        let ghost self_v = ColumnAppender::Field(f);
        let ghost root = repetition_index@[0];

                let BasicPgRowColumnAppender { column_i, appender, max_dl, max_rl } = *f;
                match value {
                    PgValue::Row(cells) => {
                        let cell: Option<Vec<u8>> = if column_i < cells.len() {
                            match &cells[column_i] {
                                Option::Some(bb) => Option::Some(clone_bytes(bb)),
                                Option::None => Option::None,
                            }
                        } else {
                            Option::None
                        };
                        match cell {
                            Option::Some(bytes) => {
                                let v2 = PgValue::Raw(bytes);
                                proof {
                                    assert(value@ == PgV::Row(
                                        crate::appenders::records::cells_view(cells@),
                                    ));
                                    assert(crate::appenders::records::cells_view(cells@)[
                                        column_i as int] == Option::Some(bytes@));
                                    assert(payload(self_v, value@) == payload(appender, v2@));
                                }
                                let (a2, res) = appender.copy_value(
                                    repetition_index,
                                    &v2,
                                    warnings,
                                );
                                (
                                    ColumnAppender::Field(
                                        Box::new(
                                            BasicPgRowColumnAppender {
                                                column_i,
                                                appender: a2,
                                                max_dl,
                                                max_rl,
                                            },
                                        ),
                                    ),
                                    res,
                                )
                            },
                            Option::None => {
                                proof {
                                    lemma_wf_leaves(appender);
                                }
                                let (a2, sz) = appender.write_null(repetition_index, max_dl - 1);
                                proof {
                                    lemma_null_step_is_step(
                                        leaves(appender),
                                        leaves(a2),
                                        root,
                                        max_dl - 1,
                                    );
                                    lemma_marker_payload_appended(
                                        leaves(appender),
                                        leaves(a2),
                                        root,
                                        max_dl - 1,
                                    );
                                    assert(value@ == PgV::Row(
                                        crate::appenders::records::cells_view(cells@),
                                    ));
                                    assert(payload(self_v, value@) == Option::Some(
                                        marker_payload(leaves(self_v).len(), max_dl - 1),
                                    ));
                                }
                                (
                                    ColumnAppender::Field(
                                        Box::new(
                                            BasicPgRowColumnAppender {
                                                column_i,
                                                appender: a2,
                                                max_dl,
                                                max_rl,
                                            },
                                        ),
                                    ),
                                    Result::Ok(sz),
                                )
                            },
                        }
                    },
                    _ => {
                        proof {
                            lemma_tree_step_refl(leaves(appender), root);
                            lemma_same_plan_refl(appender);
                            assert(payload(self_v, value@) is None);
                        }
                        (
                            ColumnAppender::Field(
                                Box::new(
                                    BasicPgRowColumnAppender {
                                        column_i,
                                        appender,
                                        max_dl,
                                        max_rl,
                                    },
                                ),
                            ),
                            Result::Err(
                                crate::appenders::generic::err_string(
                                    "value does not fit the planned row column",
                                ),
                            ),
                        )
                    },
                }
    }

    /// The structured-decode case of `copy_value`, split out: parse the
    /// raw value into a pseudo-row and broadcast it to the children.
    #[verifier::rlimit(100)]
    fn copy_decode_value(
        d: Box<DecodeAppender>,
        repetition_index: &LevelIndexList,
        value: &PgValue,
        warnings: &mut Vec<String>,
    ) -> (r: (Self, Result<usize, String>))
        requires
            app_wf((ColumnAppender::Decode(d))),
            repetition_index.wf(),
            repetition_index@.len() == app_max_rl((ColumnAppender::Decode(d))) + 1,
            root_ready(leaves((ColumnAppender::Decode(d))), repetition_index@[0]),
        ensures
            app_wf(r.0),
            same_shape((ColumnAppender::Decode(d)), r.0),
            same_plan((ColumnAppender::Decode(d)), r.0),
            tree_step(leaves((ColumnAppender::Decode(d))), leaves(r.0), repetition_index@[0]),
            r.1 is Ok ==> tree_grew(leaves((ColumnAppender::Decode(d))), leaves(r.0)),
            old(warnings)@.is_prefix_of(final(warnings)@),
            (payload((ColumnAppender::Decode(d)), value@) matches Option::Some(ps) ==> {
                &&& r.1 is Ok
                &&& forall|i: int|
                    0 <= i < leaves((ColumnAppender::Decode(d))).len() ==> payload_appended(
                        leaves((ColumnAppender::Decode(d)))[i],
                        #[trigger] leaves(r.0)[i],
                        ps[i],
                    )
            }),
            (flat((ColumnAppender::Decode(d))) ==> (payload((ColumnAppender::Decode(d)), value@) matches Option::Some(ps) ==> forall|i: int|
                0 <= i < leaves((ColumnAppender::Decode(d))).len() ==> crate::appenders::records::appended1(
                    leaves((ColumnAppender::Decode(d)))[i],
                    #[trigger] leaves(r.0)[i],
                    repetition_index@,
                    ps[i][0].dl,
                    ps[i][0].val,
                ))),
            ((ColumnAppender::Decode(d)) matches ColumnAppender::Arr(b) ==> {
                &&& (value@ is Null ==> r.1 is Ok && tree_null_step(
                    leaves((ColumnAppender::Decode(d))),
                    leaves(r.0),
                    repetition_index@[0],
                    if b.allow_null {
                        b.dl - 1
                    } else {
                        b.dl as int
                    },
                ))
                &&& (value@ matches PgV::Raw(bytes) ==> (spec_elements(b.source, bytes)
                    matches Option::Some(es) ==> (es.len() == 0 ==> r.1 is Ok && tree_null_step(
                    leaves((ColumnAppender::Decode(d))),
                    leaves(r.0),
                    repetition_index@[0],
                    b.dl as int,
                ))))
            }),
            ((ColumnAppender::Decode(d)) matches ColumnAppender::Field(f) ==> (value@ matches PgV::Row(cells) ==> ((
            f.column_i >= cells.len() || cells[f.column_i as int] is None) ==> r.1 is Ok
                && tree_null_step(
                leaves((ColumnAppender::Decode(d))),
                leaves(r.0),
                repetition_index@[0],
                f.max_dl - 1,
            )))),
        decreases app_height((ColumnAppender::Decode(d))), 0int,
    {
        let ghost self_v = ColumnAppender::Decode(d);
        let ghost root = repetition_index@[0];

                let DecodeAppender { decoder, inner, max_dl, max_rl } = *d;
                let parsed: Result<Vec<Option<Vec<u8>>>, String> = match (&decoder, value) {
                    (StructDecoder::RangeDecoder, PgValue::Raw(bytes)) => {
                        match crate::pg_custom_types::parse_range(bytes.as_slice()) {
                            Result::Err(e) => Result::Err(e),
                            Result::Ok(rr) => {
                                let mut cells: Vec<Option<Vec<u8>>> = Vec::new();
                                let crate::pg_custom_types::PgRawRange {
                                    lower,
                                    upper,
                                    lower_inclusive,
                                    upper_inclusive,
                                    is_empty,
                                } = rr;
                                cells.push(lower);
                                cells.push(upper);
                                let mut b1: Vec<u8> = Vec::new();
                                b1.push(
                                    if lower_inclusive {
                                        1
                                    } else {
                                        0
                                    },
                                );
                                cells.push(Option::Some(b1));
                                let mut b2: Vec<u8> = Vec::new();
                                b2.push(
                                    if upper_inclusive {
                                        1
                                    } else {
                                        0
                                    },
                                );
                                cells.push(Option::Some(b2));
                                let mut b3: Vec<u8> = Vec::new();
                                b3.push(
                                    if is_empty {
                                        1
                                    } else {
                                        0
                                    },
                                );
                                cells.push(Option::Some(b3));
                                proof {
                                    let rv = crate::pg_custom_types::spec_parse_range(
                                        bytes@,
                                    )->Some_0;
                                    assert(b1@ =~= seq![
                                        if rv.lower_inclusive {
                                            1u8
                                        } else {
                                            0u8
                                        },
                                    ]);
                                    assert(b2@ =~= seq![
                                        if rv.upper_inclusive {
                                            1u8
                                        } else {
                                            0u8
                                        },
                                    ]);
                                    assert(b3@ =~= seq![
                                        if rv.is_empty {
                                            1u8
                                        } else {
                                            0u8
                                        },
                                    ]);
                                    assert(crate::appenders::records::cells_view(cells@) =~= seq![
                                        rv.lower,
                                        rv.upper,
                                        Option::Some(
                                            seq![
                                                if rv.lower_inclusive {
                                                    1u8
                                                } else {
                                                    0u8
                                                },
                                            ],
                                        ),
                                        Option::Some(
                                            seq![
                                                if rv.upper_inclusive {
                                                    1u8
                                                } else {
                                                    0u8
                                                },
                                            ],
                                        ),
                                        Option::Some(
                                            seq![
                                                if rv.is_empty {
                                                    1u8
                                                } else {
                                                    0u8
                                                },
                                            ],
                                        ),
                                    ]);
                                }
                                Result::Ok(cells)
                            },
                        }
                    },
                    (StructDecoder::RecordDecoder(declared), PgValue::Raw(bytes)) => {
                        match crate::pg_custom_types::parse_record(bytes.as_slice(), *declared) {
                            Result::Err(e) => Result::Err(e),
                            Result::Ok(rr) => Result::Ok(rr.fields),
                        }
                    },
                    _ => Result::Err(
                        crate::appenders::generic::err_string(
                            "value does not fit the planned struct column",
                        ),
                    ),
                };
                match parsed {
                    Result::Err(e) => {
                        proof {
                            lemma_tree_step_refl(leaves(inner), root);
                            lemma_same_plan_refl(inner);
                            assert(payload(self_v, value@) is None);
                        }
                        (
                            ColumnAppender::Decode(
                                Box::new(DecodeAppender { decoder, inner, max_dl, max_rl }),
                            ),
                            Result::Err(e),
                        )
                    },
                    Result::Ok(cells) => {
                        let v2 = PgValue::Row(cells);
                        proof {
                            assert(decoded_cells(decoder, value@) == Option::Some(
                                crate::appenders::records::cells_view(cells@),
                            ));
                            assert(payload(self_v, value@) == payload(inner, v2@));
                        }
                        let (a2, res) = inner.copy_value(repetition_index, &v2, warnings);
                        (
                            ColumnAppender::Decode(
                                Box::new(DecodeAppender { decoder, inner: a2, max_dl, max_rl }),
                            ),
                            res,
                        )
                    },
                }
    }

    pub fn copy_value(
        self,
        repetition_index: &LevelIndexList,
        value: &PgValue,
        warnings: &mut Vec<String>,
    ) -> (r: (Self, Result<usize, String>))
        requires
            app_wf(self),
            repetition_index.wf(),
            repetition_index@.len() == app_max_rl(self) + 1,
            root_ready(leaves(self), repetition_index@[0]),
        ensures
            app_wf(r.0),
            same_shape(self, r.0),
            same_plan(self, r.0),
            tree_step(leaves(self), leaves(r.0), repetition_index@[0]),
            r.1 is Ok ==> tree_grew(leaves(self), leaves(r.0)),
            old(warnings)@.is_prefix_of(final(warnings)@),
            (payload(self, value@) matches Option::Some(ps) ==> {
                &&& r.1 is Ok
                &&& forall|i: int|
                    0 <= i < leaves(self).len() ==> payload_appended(
                        leaves(self)[i],
                        #[trigger] leaves(r.0)[i],
                        ps[i],
                    )
            }),
            (flat(self) ==> (payload(self, value@) matches Option::Some(ps) ==> forall|i: int|
                0 <= i < leaves(self).len() ==> crate::appenders::records::appended1(
                    leaves(self)[i],
                    #[trigger] leaves(r.0)[i],
                    repetition_index@,
                    ps[i][0].dl,
                    ps[i][0].val,
                ))),
            (self matches ColumnAppender::Arr(b) ==> {
                &&& (value@ is Null ==> r.1 is Ok && tree_null_step(
                    leaves(self),
                    leaves(r.0),
                    repetition_index@[0],
                    if b.allow_null {
                        b.dl - 1
                    } else {
                        b.dl as int
                    },
                ))
                &&& (value@ matches PgV::Raw(bytes) ==> (spec_elements(b.source, bytes)
                    matches Option::Some(es) ==> (es.len() == 0 ==> r.1 is Ok && tree_null_step(
                    leaves(self),
                    leaves(r.0),
                    repetition_index@[0],
                    b.dl as int,
                ))))
            }),
            (self matches ColumnAppender::Field(f) ==> (value@ matches PgV::Row(cells) ==> ((
            f.column_i >= cells.len() || cells[f.column_i as int] is None) ==> r.1 is Ok
                && tree_null_step(
                leaves(self),
                leaves(r.0),
                repetition_index@[0],
                f.max_dl - 1,
            )))),
            (self matches ColumnAppender::Arr(bx) ==> ({
                let trig = bx.warn_multidim && !bx.warned_multidim && bx.source is PgArray && (
                value@ matches PgV::Raw(bytes) && spec_elements(bx.source, bytes) is Some
                    && bytes.len() >= 4 && crate::datatypes::utils::be_i32(bytes) > 1);
                &&& (r.0 matches ColumnAppender::Arr(b2) ==> b2.warned_multidim == (
                bx.warned_multidim || trig))
                &&& (trig ==> {
                    &&& final(warnings)@.len() > old(warnings)@.len()
                    &&& (final(warnings)@[old(warnings)@.len() as int])@ == multidim_note_text(
                        bx.path@,
                        crate::datatypes::utils::be_i32(value@->Raw_0),
                        crate::datatypes::array::spec_parse_pg_array(value@->Raw_0)->Some_0.dims,
                        spec_elements(bx.source, value@->Raw_0)->Some_0.len() as int,
                    )
                })
            })),
        decreases app_height(self), 1int,
    {
        let ghost root = repetition_index@[0];
        match self {
            ColumnAppender::Generic(g) => {
                proof {
                    g.lemma_wf_leaf();
                    assert(leaves(self)[0] == g.leaf());
                }
                let (g2, res) = g.copy_value(repetition_index, value, warnings);
                proof {
                    match crate::appenders::generic::conv_res(g.conv(), value@) {
                        crate::appenders::generic::CRes::CVal(v) => {
                            lemma_appended1_step(
                                g.leaf(),
                                g2.leaf(),
                                repetition_index@,
                                g.leaf().max_dl,
                                Option::Some(v),
                                root,
                            );
                            let pr = PayloadRec {
                                dl: g.leaf().max_dl,
                                rl: Option::None,
                                val: Option::Some(v),
                            };
                            lemma_appended1_payload(g.leaf(), g2.leaf(), repetition_index@, pr);
                            assert(payload(self, value@) == Option::Some(seq![seq![pr]]));
                        },
                        crate::appenders::generic::CRes::CSoft => {
                            lemma_appended1_step(
                                g.leaf(),
                                g2.leaf(),
                                repetition_index@,
                                g.leaf().max_dl - 1,
                                Option::None,
                                root,
                            );
                            let pr = PayloadRec {
                                dl: g.leaf().max_dl - 1,
                                rl: Option::None,
                                val: Option::None,
                            };
                            lemma_appended1_payload(g.leaf(), g2.leaf(), repetition_index@, pr);
                            assert(payload(self, value@) == Option::Some(seq![seq![pr]]));
                        },
                        crate::appenders::generic::CRes::CNull => {
                            lemma_appended1_step(
                                g.leaf(),
                                g2.leaf(),
                                repetition_index@,
                                g.leaf().max_dl - 1,
                                Option::None,
                                root,
                            );
                            let pr = PayloadRec {
                                dl: g.leaf().max_dl - 1,
                                rl: Option::None,
                                val: Option::None,
                            };
                            lemma_appended1_payload(g.leaf(), g2.leaf(), repetition_index@, pr);
                            assert(payload(self, value@) == Option::Some(seq![seq![pr]]));
                        },
                        crate::appenders::generic::CRes::CErr => {
                            lemma_leaf_step_refl(g.leaf(), root);
                            assert(payload(self, value@) is None);
                        },
                    }
                }
                (ColumnAppender::Generic(g2), res)
            },
            ColumnAppender::Bytes(b) => {
                proof {
                    b.lemma_wf_leaf();
                    assert(leaves(self)[0] == b.leaf());
                }
                let (b2, res) = b.append(repetition_index, value);
                proof {
                    match crate::appenders::byte_array::byte_conv_res(b.conv(), value@) {
                        crate::appenders::byte_array::BRes::BVal(s) => {
                            lemma_appended1_step(
                                b.leaf(),
                                b2.leaf(),
                                repetition_index@,
                                b.leaf().max_dl,
                                Option::Some(crate::appenders::records::PqVal::Bytes(s)),
                                root,
                            );
                            let pr = PayloadRec {
                                dl: b.leaf().max_dl,
                                rl: Option::None,
                                val: Option::Some(crate::appenders::records::PqVal::Bytes(s)),
                            };
                            lemma_appended1_payload(b.leaf(), b2.leaf(), repetition_index@, pr);
                            assert(payload(self, value@) == Option::Some(seq![seq![pr]]));
                        },
                        crate::appenders::byte_array::BRes::BErr => {
                            lemma_leaf_step_refl(b.leaf(), root);
                            assert(payload(self, value@) is None);
                        },
                    }
                }
                (ColumnAppender::Bytes(b2), res)
            },
            ColumnAppender::Fixed(f) => {
                proof {
                    f.lemma_wf_leaf();
                    assert(leaves(self)[0] == f.leaf());
                }
                let (f2, res) = f.append(repetition_index, value);
                proof {
                    match crate::appenders::fixed_byte_array::fixed_conv_res(
                        f.conv(),
                        value@,
                        f.spec_length(),
                    ) {
                        crate::appenders::byte_array::BRes::BVal(s) => {
                            lemma_appended1_step(
                                f.leaf(),
                                f2.leaf(),
                                repetition_index@,
                                f.leaf().max_dl,
                                Option::Some(crate::appenders::records::PqVal::Fixed(s)),
                                root,
                            );
                            let pr = PayloadRec {
                                dl: f.leaf().max_dl,
                                rl: Option::None,
                                val: Option::Some(crate::appenders::records::PqVal::Fixed(s)),
                            };
                            lemma_appended1_payload(f.leaf(), f2.leaf(), repetition_index@, pr);
                            assert(payload(self, value@) == Option::Some(seq![seq![pr]]));
                        },
                        crate::appenders::byte_array::BRes::BErr => {
                            lemma_leaf_step_refl(f.leaf(), root);
                            assert(payload(self, value@) is None);
                        },
                    }
                }
                (ColumnAppender::Fixed(f2), res)
            },
            ColumnAppender::Arr(bx) => {
                let rr = Self::copy_list_value(bx, repetition_index, value, warnings);
                rr
            },
            ColumnAppender::Merged(m) => {
                let rr = Self::copy_merged_value(m, repetition_index, value, warnings);
                rr
            },
            ColumnAppender::Field(f) => {
                let rr = Self::copy_field_value(f, repetition_index, value, warnings);
                rr
            },
            ColumnAppender::Decode(d) => {
                let rr = Self::copy_decode_value(d, repetition_index, value, warnings);
                rr
            },
        }
    }
}

impl ColumnAppender {
    /// Drain every leaf below this node into one column chunk each,
    /// appended to `out` in leaf order.  Tracker state and histories
    /// stay; only the buffers move out.
    #[verifier::loop_isolation(false)]
    pub fn write_columns(self, out: &mut Vec<ColumnChunkData>) -> (r: Self)
        requires
            app_wf(self),
        ensures
            app_wf(r),
            same_shape(self, r),
            same_plan(self, r),
            forall|i: int|
                0 <= i < leaves(self).len() ==> flushed_leaf(
                    leaves(self)[i],
                    #[trigger] leaves(r)[i],
                ),
            final(out)@.len() == old(out)@.len() + leaves(self).len(),
            forall|i: int| 0 <= i < old(out)@.len() ==> #[trigger] final(out)@[i] == old(out)@[i],
            forall|i: int|
                0 <= i < leaves(self).len() ==> crate::appenders::records::chunk_matches(
                    #[trigger] final(out)@[old(out)@.len() + i],
                    leaves(self)[i].pending(),
                    leaves(self)[i].max_dl,
                    leaves(self)[i].max_rl,
                ),
        decreases app_height(self), 0int,
    {
        match self {
            ColumnAppender::Generic(g) => {
                proof {
                    assert(leaves(self)[0] == g.leaf());
                }
                let (g2, chunk) = g.write_column();
                out.push(chunk);
                ColumnAppender::Generic(g2)
            },
            ColumnAppender::Bytes(b) => {
                proof {
                    assert(leaves(self)[0] == b.leaf());
                }
                let (b2, chunk) = b.write_column();
                out.push(chunk);
                ColumnAppender::Bytes(b2)
            },
            ColumnAppender::Fixed(f) => {
                proof {
                    assert(leaves(self)[0] == f.leaf());
                }
                let (f2, chunk) = f.write_column();
                out.push(chunk);
                ColumnAppender::Fixed(f2)
            },
            ColumnAppender::Arr(bx) => {
                let ArrayColumnAppender {
                    inner,
                    dl,
                    rl,
                    allow_null,
                    allow_element_null,
                    source,
                    warn_multidim,
                    warned_multidim,
                    path,
                } =
                    *bx;
                let inner2 = inner.write_columns(out);
                ColumnAppender::Arr(
                    Box::new(
                        ArrayColumnAppender {
                            inner: inner2,
                            dl,
                            rl,
                            allow_null,
                            allow_element_null,
                            source,
                            warn_multidim,
                            warned_multidim,
                            path,
                        },
                    ),
                )
            },
            ColumnAppender::Merged(m) => {
                let DynamicMergedAppender { mut columns, max_dl, max_rl } = m;
                let ghost orig = columns@;
                let ghost l0 = leaves_seq(orig);
                let ghost out0 = out@;
                let n = columns.len();
                let mut i: usize = 0;
                proof {
                    lemma_loff_last(orig);
                }
                while i < n
                    invariant
                        i <= n,
                        columns@.len() == n,
                        forall|j: int|
                            0 <= j < n ==> #[trigger] app_height(columns@[j]) == app_height(
                                orig[j],
                            ),
                        forall|j: int| 0 <= j < n ==> app_wf(#[trigger] columns@[j]),
                        forall|j: int|
                            0 <= j < n ==> app_max_dl(#[trigger] columns@[j]) == app_max_dl(
                                orig[j],
                            ),
                        forall|j: int|
                            0 <= j < n ==> app_max_rl(#[trigger] columns@[j]) == app_max_rl(
                                orig[j],
                            ),
                        forall|j: int| i <= j < n ==> columns@[j] == orig[j],
                        forall|j: int| 0 <= j < i ==> same_plan(#[trigger] orig[j], columns@[j]),
                        forall|j: int|
                            0 <= j < n ==> #[trigger] leaves(columns@[j]).len() == leaves(
                                orig[j],
                            ).len(),
                        leaves_seq(columns@).len() == l0.len(),
                        out@.len() == out0.len() + loff(orig, i as int),
                        forall|k: int| 0 <= k < out0.len() ==> #[trigger] out@[k] == out0[k],
                        forall|k: int|
                            0 <= k < loff(orig, i as int) ==> flushed_leaf(
                                l0[k],
                                #[trigger] leaves_seq(columns@)[k],
                            ),
                        forall|k: int|
                            0 <= k < loff(orig, i as int)
                                ==> crate::appenders::records::chunk_matches(
                                #[trigger] out@[out0.len() + k],
                                l0[k].pending(),
                                l0[k].max_dl,
                                l0[k].max_rl,
                            ),
                        forall|k: int|
                            loff(orig, i as int) <= k < l0.len() ==> #[trigger] leaves_seq(
                                columns@,
                            )[k] == l0[k],
                    decreases n - i,
                {
                    let ghost pre_cols = columns@;
                    let ghost pre_out = out@;
                    let c = columns.remove(i);
                    proof {
                        lemma_apps_height_elem(orig, i as int);
                        lemma_leaves_seq_at(orig, i as int);
                        lemma_loff_step(orig, i as int);
                        assert(c == orig[i as int]);
                    }
                    let c2 = c.write_columns(out);
                    columns.insert(i, c2);
                    proof {
                        assert(columns@ =~= pre_cols.update(i as int, c2));
                        assert(pre_cols.subrange(0, i as int) =~= columns@.subrange(0, i as int));
                        assert forall|j: int|
                            0 <= j < i implies #[trigger] leaves(
                            pre_cols.subrange(0, i as int)[j],
                        ).len() == leaves(orig.subrange(0, i as int)[j]).len() by {
                            assert(pre_cols.subrange(0, i as int)[j] == pre_cols[j]);
                            assert(orig.subrange(0, i as int)[j] == orig[j]);
                            assert(leaves(pre_cols[j]).len() == leaves(orig[j]).len());
                        }
                        lemma_leaves_seq_len_eq(
                            pre_cols.subrange(0, i as int),
                            orig.subrange(0, i as int),
                        );
                        assert(loff(pre_cols, i as int) == loff(orig, i as int));
                        lemma_leaves_seq_update(pre_cols, columns@, i as int);
                        lemma_leaves_seq_at(pre_cols, i as int);
                        assert(same_plan(c, c2));
                        assert forall|j: int| 0 <= j < i + 1 implies same_plan(
                            #[trigger] orig[j],
                            columns@[j],
                        ) by {
                            if j < i {
                                assert(columns@[j] == pre_cols[j]);
                            } else {
                                assert(columns@[j] == c2);
                            }
                        }
                        assert forall|k: int|
                            0 <= k < loff(orig, i as int + 1) implies flushed_leaf(
                            l0[k],
                            #[trigger] leaves_seq(columns@)[k],
                        ) by {
                            if k < loff(orig, i as int) {
                                assert(leaves_seq(columns@)[k] == leaves_seq(pre_cols)[k]);
                            } else {
                                let kk = k - loff(orig, i as int);
                                assert(leaves_seq(columns@)[loff(pre_cols, i as int) + kk]
                                    == leaves(c2)[kk]);
                                assert(leaves_seq(pre_cols)[k] == l0[k]);
                                assert(l0[k] == leaves(c)[kk]) by {
                                    assert(l0[loff(orig, i as int) + kk] == leaves(
                                        orig[i as int],
                                    )[kk]);
                                }
                            }
                        }
                        assert forall|k: int|
                            0 <= k < loff(orig, i as int + 1)
                                implies crate::appenders::records::chunk_matches(
                            #[trigger] out@[out0.len() + k],
                            l0[k].pending(),
                            l0[k].max_dl,
                            l0[k].max_rl,
                        ) by {
                            if k < loff(orig, i as int) {
                                assert(out@[out0.len() + k] == pre_out[out0.len() + k]);
                            } else {
                                let kk = k - loff(orig, i as int);
                                assert(out@[pre_out.len() + kk] == out@[out0.len() + k]);
                                assert(l0[k] == leaves(c)[kk]) by {
                                    assert(l0[loff(orig, i as int) + kk] == leaves(
                                        orig[i as int],
                                    )[kk]);
                                }
                            }
                        }
                        assert forall|k: int|
                            loff(orig, i as int + 1) <= k < l0.len() implies #[trigger] leaves_seq(
                            columns@,
                        )[k] == l0[k] by {
                            assert(leaves_seq(columns@)[k] == leaves_seq(pre_cols)[k]);
                        }
                    }
                    i = i + 1;
                }
                proof {
                    lemma_loff_last(orig);
                }
                proof {
                    lemma_same_plan_seq_pointwise(orig, columns@);
                }
                let r = ColumnAppender::Merged(DynamicMergedAppender { columns, max_dl, max_rl });
                proof {
                    lemma_apps_height_eq(
                        match r {
                            ColumnAppender::Merged(ref m2) => m2.columns@,
                            _ => orig,
                        },
                        orig,
                    );
                }
                r
            },
            ColumnAppender::Field(f) => {
                let BasicPgRowColumnAppender { column_i, appender, max_dl, max_rl } = *f;
                let a2 = appender.write_columns(out);
                ColumnAppender::Field(
                    Box::new(BasicPgRowColumnAppender { column_i, appender: a2, max_dl, max_rl }),
                )
            },
            ColumnAppender::Decode(d) => {
                let DecodeAppender { decoder, inner, max_dl, max_rl } = *d;
                let a2 = inner.write_columns(out);
                ColumnAppender::Decode(
                    Box::new(DecodeAppender { decoder, inner: a2, max_dl, max_rl }),
                )
            },
        }
    }
}

/// Level bounds: every record of every leaf of a well-formed tree sits
/// inside the leaf's level maxima.
pub proof fn lemma_level_bounds(a: ColumnAppender)
    requires
        app_wf(a),
    ensures
        forall|i: int, j: int|
            0 <= i < leaves(a).len() && 0 <= j < leaves(a)[i].history.len() ==> {
                &&& 0 <= (#[trigger] leaves(a)[i].history[j]).dl <= leaves(a)[i].max_dl
                &&& 0 <= leaves(a)[i].history[j].rl <= leaves(a)[i].max_rl
            },
{
    lemma_wf_leaves(a);
    assert forall|i: int, j: int|
        0 <= i < leaves(a).len() && 0 <= j < leaves(a)[i].history.len() implies {
        &&& 0 <= (#[trigger] leaves(a)[i].history[j]).dl <= leaves(a)[i].max_dl
        &&& 0 <= leaves(a)[i].history[j].rl <= leaves(a)[i].max_rl
    } by {
        assert(leaves(a)[i].ok());
        assert(crate::appenders::records::rec_ok(
            leaves(a)[i].history[j],
            leaves(a)[i].max_dl,
            leaves(a)[i].max_rl,
        ));
    }
}

/// Repetition-level start: the first record any leaf ever emits opens a
/// new top-level row.
pub proof fn lemma_rl_start(a: ColumnAppender)
    requires
        app_wf(a),
    ensures
        forall|i: int|
            0 <= i < leaves(a).len() && (#[trigger] leaves(a)[i]).history.len() > 0 ==> leaves(
                a,
            )[i].history[0].rl == 0,
{
    lemma_wf_leaves(a);
    assert forall|i: int|
        0 <= i < leaves(a).len() && (#[trigger] leaves(a)[i]).history.len() > 0 implies leaves(
        a,
    )[i].history[0].rl == 0 by {
        assert(leaves(a)[i].ok());
    }
}

/// Null definition levels: a NULL marker always sits strictly below the
/// maximal definition level, and a value record exactly at it.
pub proof fn lemma_null_dl(a: ColumnAppender)
    requires
        app_wf(a),
    ensures
        forall|i: int, j: int|
            0 <= i < leaves(a).len() && 0 <= j < leaves(a)[i].history.len() ==> {
                &&& ((#[trigger] leaves(a)[i].history[j]).val is None ==> leaves(
                    a,
                )[i].history[j].dl < leaves(a)[i].max_dl)
                &&& (leaves(a)[i].history[j].val is Some ==> leaves(a)[i].history[j].dl == leaves(
                    a,
                )[i].max_dl)
            },
{
    lemma_wf_leaves(a);
    assert forall|i: int, j: int|
        0 <= i < leaves(a).len() && 0 <= j < leaves(a)[i].history.len() implies {
        &&& ((#[trigger] leaves(a)[i].history[j]).val is None ==> leaves(a)[i].history[j].dl
            < leaves(a)[i].max_dl)
        &&& (leaves(a)[i].history[j].val is Some ==> leaves(a)[i].history[j].dl == leaves(
            a,
        )[i].max_dl)
    } by {
        assert(leaves(a)[i].ok());
        assert(crate::appenders::records::rec_ok(
            leaves(a)[i].history[j],
            leaves(a)[i].max_dl,
            leaves(a)[i].max_rl,
        ));
    }
}

/// Empty list against absent list: a NULL broadcast at the list's own
/// level and one at the level below leave every leaf exactly one marker
/// each, and the two markers carry distinct definition levels.  The list
/// appender emits the former for a present-but-empty list and the latter
/// for an absent one.
pub proof fn lemma_empty_vs_null_list(
    pre: Seq<LeafModel>,
    post_empty: Seq<LeafModel>,
    post_absent: Seq<LeafModel>,
    root: usize,
    list_dl: int,
)
    requires
        tree_null_step(pre, post_empty, root, list_dl),
        tree_null_step(pre, post_absent, root, list_dl - 1),
    ensures
        forall|i: int|
            0 <= i < pre.len() ==> {
                &&& (#[trigger] post_empty[i]).history.last().dl == list_dl
                &&& post_absent[i].history.last().dl == list_dl - 1
                &&& post_empty[i].history.last().val is None
                &&& post_absent[i].history.last().val is None
                &&& post_empty[i].history.last().dl != post_absent[i].history.last().dl
            },
{
    assert forall|i: int| 0 <= i < pre.len() implies {
        &&& (#[trigger] post_empty[i]).history.last().dl == list_dl
        &&& post_absent[i].history.last().dl == list_dl - 1
        &&& post_empty[i].history.last().val is None
        &&& post_absent[i].history.last().val is None
        &&& post_empty[i].history.last().dl != post_absent[i].history.last().dl
    } by {
        assert(null_step(pre[i], post_empty[i], root, list_dl));
        assert(null_step(pre[i], post_absent[i], root, list_dl - 1));
    }
}

/// Composite totality: a successful broadcast reaches every leaf of
/// every declared field, so each field column gains at least one record.
pub proof fn lemma_composite_totality(pre: Seq<LeafModel>, post: Seq<LeafModel>, root: usize)
    requires
        tree_step(pre, post, root),
        tree_grew(pre, post),
    ensures
        forall|i: int|
            0 <= i < pre.len() ==> (#[trigger] post[i]).history.len() > pre[i].history.len(),
{
}

/// Lift a single appended record into a leaf step.
pub proof fn lemma_appended1_step(
    pre: LeafModel,
    post: LeafModel,
    path: Seq<usize>,
    dl: int,
    val: Option<crate::appenders::records::PqVal>,
    root: usize,
)
    requires
        crate::appenders::records::appended1(pre, post, path, dl, val),
        pre.ok(),
        path.len() == pre.max_rl + 1,
        path.len() == pre.mark.len(),
        path[0] == root,
        pre.mark[0] != root || pre.max_rl >= 1,
        forall|i: int| 0 <= i < path.len() ==> path[i] < usize::MAX,
    ensures
        leaf_step(pre, post, root),
        post.history.len() == pre.history.len() + 1,
        post.history.last().dl == dl,
        post.history.last().val == val,
{
    crate::level_index::lemma_first_diff_bounds(path, pre.mark);
    let fd = crate::level_index::first_diff(path, pre.mark);
    let r = crate::level_index::diff_level(pre.mark, path);
    assert(post.history.last() == post.history[pre.history.len() as int]);
    assert(post.history.subrange(0, pre.history.len() as int) =~= pre.history);
    if pre.mark[0] != root {
        assert(fd == 0) by {
            crate::level_index::lemma_first_diff_head(path, pre.mark);
        }
        assert(r == 0);
    } else {
        assert(fd >= 1) by {
            if fd == 0 {
                assert(path[0] != pre.mark[0]);
            }
        }
        assert(pre.max_rl >= 1);
        assert(path.len() >= 2);
        if fd < path.len() {
            assert(r == fd);
        } else {
            assert(r == path.len() - 1);
        }
        assert(r >= 1);
    }
}

} // verus!
