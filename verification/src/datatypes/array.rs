//! The PostgreSQL array wire format: a dimension header, one length and
//! lower bound per dimension, then every element length-prefixed in row
//! major order.  Multi-dimensional arrays are flattened; the shape is kept
//! so sidecar columns can carry it.

use vstd::prelude::*;

use crate::appenders::generic::err_string;
use crate::datatypes::utils::read_i32_at;
use crate::pg_custom_types::read_byte_vec;

verus! {

/// The lower bounds of an array: one shared value, or one per dimension.
#[derive(Debug, Clone)]
pub enum PgMultidimArrayLowerBounds {
    Const(i32),
    PerDim(Vec<i32>),
}

/// A decoded array, flattened: the elements in row major order, the
/// dimension lengths where there is more than one dimension, and the
/// lower bounds.
#[derive(Debug)]
pub struct PgMultidimArray {
    pub data: Vec<Option<Vec<u8>>>,
    pub dims: Option<Vec<i32>>,
    pub lower_bounds: PgMultidimArrayLowerBounds,
}

impl PgMultidimArray {
    /// The decoded array as the model sees it.
    pub open spec fn view(&self) -> ArrayV {
        ArrayV {
            data: crate::appenders::records::cells_view(self.data@),
            dims: match self.dims {
                Option::Some(d) => Option::Some(d@),
                Option::None => Option::None,
            },
            lower_bounds: lb_view(self.lower_bounds),
        }
    }
}

impl PgMultidimArray {
    /// The dimension lengths to record in a sidecar column: the stored
    /// dimensions, or the flat length for a one-dimensional array, or
    /// nothing for an empty one.
    pub fn sidecar_dims(&self) -> (r: Vec<i32>)
        requires
            self.data@.len() <= 0x7fffffff,
        ensures
            r@ =~= spec_sidecar_dims(self.view()),
    {
        match &self.dims {
            Option::Some(d) => {
                let mut v: Vec<i32> = Vec::new();
                let n = d.len();
                let mut i: usize = 0;
                while i < n
                    invariant
                        i <= n,
                        n == d@.len(),
                        v@ =~= d@.subrange(0, i as int),
                    decreases n - i,
                {
                    v.push(d[i]);
                    i = i + 1;
                }
                proof {
                    assert(v@ =~= d@);
                }
                v
            },
            Option::None => {
                let mut v: Vec<i32> = Vec::new();
                if self.data.len() > 0 {
                    v.push(self.data.len() as i32);
                }
                v
            },
        }
    }

    /// The lower bounds to record in a sidecar column: one entry per
    /// sidecar dimension, broadcasting a shared bound.
    #[verifier::loop_isolation(false)]
    pub fn sidecar_lower_bounds(&self) -> (r: Vec<i32>)
        requires
            self.data@.len() <= 0x7fffffff,
        ensures
            r@ =~= spec_sidecar_lbs(self.view()),
    {
        if self.data.len() == 0 {
            return Vec::new();
        }
        match &self.lower_bounds {
            PgMultidimArrayLowerBounds::Const(c) => {
                let ndims: usize = match &self.dims {
                    Option::Some(d) => d.len(),
                    Option::None => 1,
                };
                let mut v: Vec<i32> = Vec::new();
                let mut i: usize = 0;
                while i < ndims
                    invariant
                        i <= ndims,
                        v@.len() == i,
                        forall|j: int| 0 <= j < i ==> #[trigger] v@[j] == *c,
                    decreases ndims - i,
                {
                    v.push(*c);
                    i = i + 1;
                }
                v
            },
            PgMultidimArrayLowerBounds::PerDim(b) => {
                let mut v: Vec<i32> = Vec::new();
                let n = b.len();
                let mut i: usize = 0;
                while i < n
                    invariant
                        i <= n,
                        n == b@.len(),
                        v@ =~= b@.subrange(0, i as int),
                    decreases n - i,
                {
                    v.push(b[i]);
                    i = i + 1;
                }
                proof {
                    assert(v@ =~= b@);
                }
                v
            },
        }
    }
}

/// Ghost mirror of a decoded array.
#[verifier::ext_equal]
pub ghost struct ArrayV {
    pub data: Seq<Option<Seq<u8>>>,
    pub dims: Option<Seq<i32>>,
    pub lower_bounds: LbV,
}

/// Ghost mirror of the lower bounds.
#[verifier::ext_equal]
pub ghost enum LbV {
    LbConst(i32),
    LbPerDim(Seq<i32>),
}

/// The dimension lengths a sidecar column records for a decoded array.
pub open spec fn spec_sidecar_dims(av: ArrayV) -> Seq<i32> {
    match av.dims {
        Option::Some(d) => d,
        Option::None => if av.data.len() == 0 {
            Seq::empty()
        } else {
            seq![av.data.len() as i32]
        },
    }
}

/// The lower bounds a sidecar column records for a decoded array.
pub open spec fn spec_sidecar_lbs(av: ArrayV) -> Seq<i32> {
    if av.data.len() == 0 {
        Seq::empty()
    } else {
        match av.lower_bounds {
            LbV::LbConst(c) => Seq::new(
                match av.dims {
                    Option::Some(d) => d.len(),
                    Option::None => 1,
                },
                |i: int| c,
            ),
            LbV::LbPerDim(v) => v,
        }
    }
}

/// The lower bounds as the model sees them.
pub open spec fn lb_view(l: PgMultidimArrayLowerBounds) -> LbV {
    match l {
        PgMultidimArrayLowerBounds::Const(c) => LbV::LbConst(c),
        PgMultidimArrayLowerBounds::PerDim(v) => LbV::LbPerDim(v@),
    }
}

/// The per-dimension lengths of the wire header.
pub open spec fn spec_dims(b: Seq<u8>, ndim: int) -> Seq<i32> {
    Seq::new(
        ndim as nat,
        |d: int| (crate::datatypes::utils::be_i32(b.skip(12 + 8 * d))) as i32,
    )
}

/// The per-dimension lower bounds of the wire header.
pub open spec fn spec_lbs(b: Seq<u8>, ndim: int) -> Seq<i32> {
    Seq::new(
        ndim as nat,
        |d: int| (crate::datatypes::utils::be_i32(b.skip(16 + 8 * d))) as i32,
    )
}

/// The product of the dimension lengths.
pub open spec fn dims_product(ds: Seq<i32>) -> int
    decreases ds.len(),
{
    if ds.len() == 0 {
        1
    } else {
        dims_product(ds.drop_last()) * ds.last()
    }
}

/// `k` elements read from position `at`: per element a length, negative
/// for NULL, else that many value bytes.  `None` when the bytes run out.
pub open spec fn spec_array_elems(b: Seq<u8>, at: int, k: nat) -> Option<(
    Seq<Option<Seq<u8>>>,
    int,
)>
    decreases k,
{
    if k == 0 {
        Option::Some((Seq::empty(), at))
    } else if at + 4 > b.len() {
        Option::None
    } else {
        let len = crate::datatypes::utils::be_i32(b.skip(at));
        if len < 0 {
            match spec_array_elems(b, at + 4, (k - 1) as nat) {
                Option::None => Option::None,
                Option::Some((rest, end)) => Option::Some(
                    (seq![Option::<Seq<u8>>::None] + rest, end),
                ),
            }
        } else if at + 4 + len > b.len() {
            Option::None
        } else {
            match spec_array_elems(b, at + 4 + len, (k - 1) as nat) {
                Option::None => Option::None,
                Option::Some((rest, end)) => Option::Some(
                    (seq![Option::Some(b.subrange(at + 4, at + 4 + len))] + rest, end),
                ),
            }
        }
    }
}

/// The array a well-formed wire value denotes: the dimension count, a
/// length and lower bound per dimension, then the product of the lengths
/// many elements in row-major order.  A multi-dimensional array keeps its
/// shape in `dims`; one dimension keeps only its lower bound; no
/// dimensions means no elements.
pub open spec fn spec_parse_pg_array(b: Seq<u8>) -> Option<ArrayV> {
    if b.len() < 12 {
        Option::None
    } else {
        let ndim = crate::datatypes::utils::be_i32(b);
        if ndim < 0 || ndim > 64 {
            Option::None
        } else if b.len() < 12 + 8 * ndim {
            Option::None
        } else {
            let ds = spec_dims(b, ndim);
            if exists|d: int| 0 <= d < ndim && (#[trigger] ds[d]) < 0 {
                Option::None
            } else {
                let count = if ndim == 0 {
                    0int
                } else {
                    dims_product(ds)
                };
                match spec_array_elems(b, 12 + 8 * ndim, count as nat) {
                    Option::None => Option::None,
                    Option::Some((data, _end)) => Option::Some(
                        ArrayV {
                            data,
                            dims: if ndim >= 2 {
                                Option::Some(ds)
                            } else {
                                Option::None
                            },
                            lower_bounds: if ndim >= 2 {
                                LbV::LbPerDim(spec_lbs(b, ndim))
                            } else if ndim == 1 {
                                LbV::LbConst(spec_lbs(b, 1)[0])
                            } else {
                                LbV::LbConst(1)
                            },
                        },
                    ),
                }
            }
        }
    }
}

/// A run of more elements than a quarter of the remaining bytes cannot
/// be read: every element takes at least its four-byte length prefix.
proof fn lemma_elems_exhaust(b: Seq<u8>, at: int, k: nat)
    requires
        at >= 0,
        k >= 1,
        4 * k > b.len() - at,
    ensures
        spec_array_elems(b, at, k) is None,
    decreases k,
{
    if k > 0 && at + 4 <= b.len() {
        let len = crate::datatypes::utils::be_i32(b.skip(at));
        if len < 0 {
            lemma_elems_exhaust(b, at + 4, (k - 1) as nat);
        } else if at + 4 + len <= b.len() {
            lemma_elems_exhaust(b, at + 4 + len, (k - 1) as nat);
        }
    }
}

/// With every length at least one, the product only grows with more
/// dimensions.
proof fn lemma_product_monotone(ds: Seq<i32>, i: int)
    requires
        0 <= i <= ds.len(),
        forall|j: int| 0 <= j < ds.len() ==> (#[trigger] ds[j]) >= 1,
    ensures
        dims_product(ds) >= dims_product(ds.subrange(0, i)),
        dims_product(ds.subrange(0, i)) >= 1,
    decreases ds.len() - i,
{
    if i == ds.len() {
        assert(ds.subrange(0, i) =~= ds);
        lemma_product_pos(ds);
    } else {
        lemma_product_monotone(ds, i + 1);
        let p = ds.subrange(0, i + 1);
        assert(p.drop_last() =~= ds.subrange(0, i));
        assert(p.last() == ds[i]);
        lemma_product_pos(ds.subrange(0, i));
        assert(dims_product(p) == dims_product(ds.subrange(0, i)) * ds[i]);
        assert(dims_product(p) >= dims_product(ds.subrange(0, i))) by (nonlinear_arith)
            requires
                dims_product(p) == dims_product(ds.subrange(0, i)) * ds[i],
                ds[i] >= 1,
                dims_product(ds.subrange(0, i)) >= 1,
        ;
    }
}

/// A product of nonnegative lengths is nonnegative, and positive when
/// none is zero.
proof fn lemma_product_pos(ds: Seq<i32>)
    requires
        forall|j: int| 0 <= j < ds.len() ==> (#[trigger] ds[j]) >= 1,
    ensures
        dims_product(ds) >= 1,
    decreases ds.len(),
{
    if ds.len() > 0 {
        assert(forall|j: int| 0 <= j < ds.drop_last().len() ==> ds.drop_last()[j] == ds[j]);
        lemma_product_pos(ds.drop_last());
        assert(dims_product(ds) == dims_product(ds.drop_last()) * ds.last());
        assert(dims_product(ds) >= 1) by (nonlinear_arith)
            requires
                dims_product(ds) == dims_product(ds.drop_last()) * ds.last(),
                dims_product(ds.drop_last()) >= 1,
                ds.last() >= 1,
        ;
    }
}

/// One element peeled off the front of an element run.
proof fn lemma_array_elems_cons(b: Seq<u8>, at: int, k: nat)
    requires
        k >= 1,
        at + 4 <= b.len(),
    ensures
        ({
            let len = crate::datatypes::utils::be_i32(b.skip(at));
            &&& (len < 0 ==> spec_array_elems(b, at, k) == (match spec_array_elems(
                b,
                at + 4,
                (k - 1) as nat,
            ) {
                Option::None => Option::<(Seq<Option<Seq<u8>>>, int)>::None,
                Option::Some((rest, end)) => Option::Some(
                    (seq![Option::<Seq<u8>>::None] + rest, end),
                ),
            }))
            &&& (len >= 0 && at + 4 + len <= b.len() ==> spec_array_elems(b, at, k) == (
            match spec_array_elems(b, at + 4 + len, (k - 1) as nat) {
                Option::None => Option::<(Seq<Option<Seq<u8>>>, int)>::None,
                Option::Some((rest, end)) => Option::Some(
                    (seq![Option::Some(b.subrange(at + 4, at + 4 + len))] + rest, end),
                ),
            }))
        }),
{
}

/// Parse the wire form of an array.  The element count is the product of
/// the dimension lengths; every element is read in order.
#[verifier::loop_isolation(false)]
#[verifier::rlimit(100)]
pub fn parse_pg_array(b: &[u8]) -> (r: Result<PgMultidimArray, String>)
    ensures
        r is Ok <==> spec_parse_pg_array(b@) is Some,
        (r matches Result::Ok(a) ==> {
            &&& spec_parse_pg_array(b@) == Option::Some(
                ArrayV {
                    data: crate::appenders::records::cells_view(a.data@),
                    dims: match a.dims {
                        Option::Some(d) => Option::Some(d@),
                        Option::None => Option::None,
                    },
                    lower_bounds: lb_view(a.lower_bounds),
                },
            )
            &&& (a.dims matches Option::Some(d) ==> d@.len() >= 2)
            &&& a.data@.len() <= b@.len()
        }),
{
    let n = b.len();
    if n < 12 {
        return Result::Err(err_string("malformed array value"));
    }
    let ndim_i = read_i32_at(b, 0);
    proof {
        assert(b@.skip(0) =~= b@);
    }
    if ndim_i < 0 || ndim_i > 64 {
        return Result::Err(err_string("malformed array value"));
    }
    let ndim = ndim_i as usize;
    if (n - 12) / 8 < ndim {
        proof {
            assert(b@.len() < 12 + 8 * (ndim_i as int));
        }
        return Result::Err(err_string("malformed array value"));
    }
    let ghost ds = spec_dims(b@, ndim as int);
    let mut dims: Vec<i32> = Vec::new();
    let mut lbs: Vec<i32> = Vec::new();
    let mut d: usize = 0;
    while d < ndim
        invariant
            d <= ndim,
            dims@.len() == d,
            lbs@.len() == d,
            forall|j: int| 0 <= j < d ==> #[trigger] dims@[j] == ds[j],
            forall|j: int| 0 <= j < d ==> #[trigger] lbs@[j] == spec_lbs(b@, ndim as int)[j],
            forall|j: int| 0 <= j < d ==> (#[trigger] ds[j]) >= 0,
        decreases ndim - d,
    {
        let len = read_i32_at(b, 12 + 8 * d);
        let lb = read_i32_at(b, 16 + 8 * d);
        if len < 0 {
            proof {
                assert((ds[d as int]) < 0);
            }
            return Result::Err(err_string("malformed array value"));
        }
        dims.push(len);
        lbs.push(lb);
        d = d + 1;
    }
    // The element count: the product of the lengths, grown dimension by
    // dimension.  A product past the byte length cannot possibly be
    // read, since every element takes at least four bytes.
    let mut count: usize = if ndim == 0 {
        0
    } else {
        1
    };
    let mut over: bool = false;
    let mut i2: usize = 0;
    if ndim > 0 {
        proof {
            assert(ds.subrange(0, 0) =~= Seq::<i32>::empty());
        }
        while i2 < ndim
        invariant
            i2 <= ndim,
            ndim >= 1,
            dims@.len() == ndim,
            forall|j: int| 0 <= j < ndim ==> #[trigger] dims@[j] == ds[j],
            forall|j: int| 0 <= j < ndim ==> (#[trigger] ds[j]) >= 0,
            !over ==> count as int == dims_product(ds.subrange(0, i2 as int)) && count <= n,
            over ==> dims_product(ds.subrange(0, i2 as int)) > n && (forall|j: int|
                0 <= j < i2 ==> (#[trigger] ds[j]) >= 1),
        decreases ndim - i2,
    {
        let dl = dims[i2];
        proof {
            assert(ds.subrange(0, i2 + 1).drop_last() =~= ds.subrange(0, i2 as int));
            assert(ds.subrange(0, i2 + 1).last() == ds[i2 as int]);
        }
        if dl == 0 {
            proof {
                assert(dims_product(ds.subrange(0, i2 + 1)) == dims_product(
                    ds.subrange(0, i2 as int),
                ) * 0);
            }
            count = 0;
            over = false;
        } else if !over {
            let dlu = dl as usize;
            let q = n / dlu;
            if count > q {
                proof {
                    let p = dims_product(ds.subrange(0, i2 as int));
                    vstd::arithmetic::div_mod::lemma_fundamental_div_mod(n as int, dlu as int);
                    assert(p * dlu > n) by (nonlinear_arith)
                        requires
                            p >= q + 1,
                            dlu >= 1,
                            n as int == (dlu as int) * (q as int) + (n as int) % (dlu as int),
                            0 <= (n as int) % (dlu as int) < dlu as int,
                    ;
                    assert(dims_product(ds.subrange(0, i2 + 1)) == p * dlu);
                    assert(count as int == p);
                    assert(forall|j: int| 0 <= j < i2 ==> (#[trigger] ds[j]) >= 1) by {
                        assert forall|j: int| 0 <= j < i2 implies (#[trigger] ds[j]) >= 1 by {
                            lemma_prefix_product_zero(ds, i2 as int, j);
                        }
                    }
                }
                over = true;
            } else {
                proof {
                    let p = dims_product(ds.subrange(0, i2 as int));
                    vstd::arithmetic::div_mod::lemma_fundamental_div_mod(n as int, dlu as int);
                    assert(p * dlu <= n) by (nonlinear_arith)
                        requires
                            0 <= p <= q,
                            dlu >= 1,
                            n as int == (dlu as int) * (q as int) + (n as int) % (dlu as int),
                            0 <= (n as int) % (dlu as int) < dlu as int,
                    ;
                    assert(dims_product(ds.subrange(0, i2 + 1)) == p * dlu);
                }
                count = count * dlu;
            }
        } else {
            proof {
                let p = dims_product(ds.subrange(0, i2 as int));
                assert(dims_product(ds.subrange(0, i2 + 1)) == p * (ds[i2 as int] as int));
                assert(p * (ds[i2 as int] as int) > n) by (nonlinear_arith)
                    requires
                        p > n,
                        ds[i2 as int] >= 1,
                ;
            }
        }
        i2 = i2 + 1;
        }
    }
    let at0: usize = 12 + 8 * ndim;
    proof {
        assert(ds.subrange(0, ndim as int) =~= ds);
    }
    if over {
        proof {
            lemma_elems_exhaust(b@, at0 as int, dims_product(ds) as nat);
        }
        return Result::Err(err_string("array length header overflows its value"));
    }
    let mut data: Vec<Option<Vec<u8>>> = Vec::new();
    let mut at: usize = at0;
    let mut i: usize = 0;
    while i < count
        invariant
            i <= count,
            at0 <= at <= n,
            data@.len() == i,
            spec_array_elems(b@, at0 as int, count as nat) is Some <==> spec_array_elems(
                b@,
                at as int,
                (count - i) as nat,
            ) is Some,
            spec_array_elems(b@, at as int, (count - i) as nat) matches Option::Some(rem)
                ==> spec_array_elems(b@, at0 as int, count as nat) == Option::Some(
                (crate::appenders::records::cells_view(data@) + rem.0, rem.1),
            ),
        decreases count - i,
    {
        let ghost rem_pre = spec_array_elems(b@, at as int, (count - i) as nat);
        if n - at < 4 {
            proof {
                assert(rem_pre is None);
            }
            return Result::Err(err_string("malformed array value"));
        }
        let len = read_i32_at(b, at);
        let ghost atp = at as int;
        at = at + 4;
        if len < 0 {
            data.push(Option::None);
            proof {
                lemma_array_elems_cons(b@, atp, (count - i) as nat);
            }
        } else {
            let l = len as usize;
            if l > n - at {
                proof {
                    assert(rem_pre is None);
                }
                return Result::Err(err_string("malformed array value"));
            }
            let v = read_byte_vec(b, &mut at, l);
            data.push(Option::Some(v));
            proof {
                lemma_array_elems_cons(b@, atp, (count - i) as nat);
            }
        }
        i = i + 1;
    }
    proof {
        assert(spec_array_elems(b@, at as int, 0) == Option::<(Seq<Option<Seq<u8>>>, int)>::Some(
            (Seq::<Option<Seq<u8>>>::empty(), at as int),
        ));
        match spec_array_elems(b@, at0 as int, count as nat) {
            Option::Some(full) => {
                assert(full.0 =~= crate::appenders::records::cells_view(data@));
            },
            Option::None => {
                assert(false);
            },
        }
    }
    if ndim >= 2 {
        Result::Ok(
            PgMultidimArray {
                data,
                dims: Option::Some(dims),
                lower_bounds: PgMultidimArrayLowerBounds::PerDim(lbs),
            },
        )
    } else if ndim == 1 {
        let lb0 = lbs[0];
        Result::Ok(
            PgMultidimArray {
                data,
                dims: Option::None,
                lower_bounds: PgMultidimArrayLowerBounds::Const(lb0),
            },
        )
    } else {
        Result::Ok(
            PgMultidimArray {
                data,
                dims: Option::None,
                lower_bounds: PgMultidimArrayLowerBounds::Const(1),
            },
        )
    }
}

/// A prefix with a positive product holds no zero length.
proof fn lemma_prefix_product_zero(ds: Seq<i32>, m: int, j: int)
    requires
        0 <= j < m <= ds.len(),
        dims_product(ds.subrange(0, m)) >= 1,
        forall|q: int| 0 <= q < ds.len() ==> (#[trigger] ds[q]) >= 0,
    ensures
        ds[j] >= 1,
    decreases m,
{
    let p = ds.subrange(0, m);
    assert(p.drop_last() =~= ds.subrange(0, m - 1));
    assert(p.last() == ds[m - 1]);
    if j == m - 1 {
        if ds[j] == 0 {
            assert(dims_product(p) == dims_product(ds.subrange(0, m - 1)) * 0);
        }
    } else {
        if ds[m - 1] == 0 {
            assert(dims_product(p) == dims_product(ds.subrange(0, m - 1)) * 0);
        } else {
            assert(dims_product(ds.subrange(0, m - 1)) >= 1) by (nonlinear_arith)
                requires
                    dims_product(ds.subrange(0, m)) == dims_product(ds.subrange(0, m - 1)) * (
                    ds[m - 1] as int),
                    dims_product(ds.subrange(0, m)) >= 1,
                    ds[m - 1] >= 1,
            ;
            lemma_prefix_product_zero(ds, m - 1, j);
        }
    }
}

} // verus!
