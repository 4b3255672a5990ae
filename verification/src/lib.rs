//! A verified parser for the Wavefront OBJ and MTL text formats.
//!
//! The library turns OBJ text into a raw document model — attribute arrays,
//! element lists and range groupings — and further into deduplicated
//! vertex/index buffers of a caller-chosen index width.  Scalar attribute
//! values are kept as the validated numeric tokens that were written in the
//! source text; turning them into machine floats is left to the caller.

pub mod error;
pub mod lex;
pub mod mtl;
pub mod raw;
pub mod text;

pub use crate::error::{LoadError, LoadErrorKind, ObjError, ObjResult};

use crate::error::{ErrModel, err_model};
use crate::raw::lexer::lex_spec;
use crate::raw::object::{
    G3, G4, GPolygon, Polygon, RawObj, all_supported, gdoc_wf, parse_obj, parse_obj_spec,
};
use vstd::prelude::*;

verus! {

/// The first index at which `x` stands in `s`, or `s.len()` if it is absent.
pub open spec fn find_in<T>(s: Seq<T>, x: T) -> int
    decreases s.len(),
{
    if s.len() == 0 {
        0
    } else if s[0] == x {
        0
    } else {
        1 + find_in(s.skip(1), x)
    }
}

/// `find_in` is in bounds, earlier entries differ, and it hits `x` unless
/// it is `s.len()`.
pub proof fn lemma_find_in<T>(s: Seq<T>, x: T)
    ensures
        0 <= find_in(s, x) <= s.len(),
        forall|j: int| 0 <= j < find_in(s, x) ==> s[j] != x,
        find_in(s, x) < s.len() ==> s[find_in(s, x)] == x,
    decreases s.len(),
{
    if s.len() == 0 {
    } else if s[0] == x {
    } else {
        let f = find_in(s, x);
        lemma_find_in(s.skip(1), x);
        assert forall|j: int| 0 <= j < f implies s[j] != x by {
            if j > 0 {
                assert(s.skip(1)[j - 1] == s[j]);
            }
        }
        if f < s.len() {
            assert(s.skip(1)[f - 1] == s[f]);
        }
    }
}

/// Any index with `find_in`'s characterization is `find_in`.
pub proof fn lemma_find_in_unique<T>(s: Seq<T>, x: T, i: int)
    requires
        0 <= i <= s.len(),
        forall|j: int| 0 <= j < i ==> s[j] != x,
        i < s.len() ==> s[i] == x,
    ensures
        i == find_in(s, x),
{
    lemma_find_in(s, x);
    let f = find_in(s, x);
    if i < f {
        assert(s[i] != x);
        assert(s[i] == x);
    }
    if f < i {
        assert(s[f] != x);
        assert(s[f] == x);
    }
}

/// The sequence without its repeated entries, each kept at its first
/// occurrence.
pub open spec fn dedup_first<T>(s: Seq<T>) -> Seq<T>
    decreases s.len(),
{
    if s.len() == 0 {
        Seq::empty()
    } else {
        let d = dedup_first(s.drop_last());
        if find_in(d, s.last()) < d.len() {
            d
        } else {
            d.push(s.last())
        }
    }
}

/// An integer type that can index a vertex buffer.
pub trait VertexIndex: Sized + Copy {
    /// The largest buffer position the width can carry.
    spec fn max_index() -> int;

    /// The index as a number.
    spec fn idx_int(self) -> int;

    /// The width carries at least the index zero.
    proof fn max_index_nonneg()
        ensures
            Self::max_index() >= 0,
    ;

    /// Converts a buffer position into this width, or nothing if it does
    /// not fit.
    fn from_count(n: usize) -> (r: Option<Self>)
        ensures
            match r {
                Some(v) => n <= Self::max_index() && v.idx_int() == n,
                None => n > Self::max_index(),
            },
    ;
}

impl VertexIndex for u8 {
    open spec fn max_index() -> int {
        u8::MAX as int
    }

    open spec fn idx_int(self) -> int {
        self as int
    }

    proof fn max_index_nonneg() {
    }

    fn from_count(n: usize) -> (r: Option<u8>)
        ensures
            match r {
                Some(v) => n <= Self::max_index() && v.idx_int() == n,
                None => n > Self::max_index(),
            },
    {
        if n <= u8::MAX as usize {
            Some(n as u8)
        } else {
            None
        }
    }
}

impl VertexIndex for u16 {
    open spec fn max_index() -> int {
        u16::MAX as int
    }

    open spec fn idx_int(self) -> int {
        self as int
    }

    proof fn max_index_nonneg() {
    }

    fn from_count(n: usize) -> (r: Option<u16>)
        ensures
            match r {
                Some(v) => n <= Self::max_index() && v.idx_int() == n,
                None => n > Self::max_index(),
            },
    {
        if n <= u16::MAX as usize {
            Some(n as u16)
        } else {
            None
        }
    }
}

impl VertexIndex for u32 {
    open spec fn max_index() -> int {
        u32::MAX as int
    }

    open spec fn idx_int(self) -> int {
        self as int
    }

    proof fn max_index_nonneg() {
    }

    fn from_count(n: usize) -> (r: Option<u32>)
        ensures
            match r {
                Some(v) => n <= Self::max_index() && v.idx_int() == n,
                None => n > Self::max_index(),
            },
    {
        if n <= u32::MAX as u64 as usize {
            Some(n as u32)
        } else {
            None
        }
    }
}

impl VertexIndex for u64 {
    open spec fn max_index() -> int {
        u64::MAX as int
    }

    open spec fn idx_int(self) -> int {
        self as int
    }

    proof fn max_index_nonneg() {
    }

    fn from_count(n: usize) -> (r: Option<u64>)
        ensures
            match r {
                Some(v) => n <= Self::max_index() && v.idx_int() == n,
                None => n > Self::max_index(),
            },
    {
        Some(n as u64)
    }
}

impl VertexIndex for usize {
    open spec fn max_index() -> int {
        usize::MAX as int
    }

    open spec fn idx_int(self) -> int {
        self as int
    }

    proof fn max_index_nonneg() {
    }

    fn from_count(n: usize) -> (r: Option<usize>)
        ensures
            match r {
                Some(v) => n <= Self::max_index() && v.idx_int() == n,
                None => n > Self::max_index(),
            },
    {
        Some(n)
    }
}

/// A vertex type with a token-level model.
pub trait Modeled {
    /// The model of one vertex.
    type Model;

    /// The vertex's model.
    spec fn vertex_model(&self) -> Self::Model;
}

/// Conversion from a `RawObj`'s raw data into a vertex and an index buffer.
pub trait FromRawVertex<I: VertexIndex>: Sized + Modeled {
    /// What building the buffers yields: the vertex models, the index
    /// values, or the first failure.
    spec fn process_spec(
        positions: Seq<G4>,
        normals: Seq<G3>,
        tex_coords: Seq<G3>,
        polygons: Seq<GPolygon>,
    ) -> Result<(Seq<Self::Model>, Seq<int>), ErrModel>;

    /// Builds the vertex and index buffers from raw object data.
    ///
    /// Every index of the index buffer addresses a vertex of the vertex
    /// buffer, and each polygon contributes exactly three indices.
    fn process(
        vertices: Vec<(String, String, String, String)>,
        normals: Vec<(String, String, String)>,
        tex_coords: Vec<(String, String, String)>,
        polygons: Vec<Polygon>,
    ) -> (r: ObjResult<(Vec<Self>, Vec<I>)>)
        requires
            crate::raw::object::polys_in_bounds(
                vertices@.len() as int,
                tex_coords@.len() as int,
                normals@.len() as int,
                crate::raw::object::polys_model(polygons@),
            ),
        ensures
            match r {
                Ok(b) => {
                    &&& Self::process_spec(
                        crate::raw::object::f4s_model(vertices@),
                        crate::raw::object::f3s_model(normals@),
                        crate::raw::object::f3s_model(tex_coords@),
                        crate::raw::object::polys_model(polygons@),
                    ) == Ok::<(Seq<Self::Model>, Seq<int>), ErrModel>(
                        (
                            b.0@.map(|i: int, x: Self| x.vertex_model()),
                            b.1@.map(|i: int, x: I| x.idx_int()),
                        ),
                    )
                    &&& forall|k: int|
                        0 <= k < b.1@.len() ==> 0 <= (#[trigger] b.1@[k]).idx_int() < b.0@.len()
                    &&& b.1@.len() == 3 * polygons@.len()
                },
                Err(e) => Self::process_spec(
                    crate::raw::object::f4s_model(vertices@),
                    crate::raw::object::f3s_model(normals@),
                    crate::raw::object::f3s_model(tex_coords@),
                    crate::raw::object::polys_model(polygons@),
                ) == Err::<(Seq<Self::Model>, Seq<int>), ErrModel>(err_model(e)),
            },
    ;
}

/// The state of a vertex-buffer build with deduplication: the vertices
/// built, the raw-index combination each stands for, and the index buffer.
pub struct GCache<M, T> {
    /// The vertex models built so far.
    pub vb: Seq<M>,
    /// The raw-index combination behind each vertex, in the same order.
    pub keys: Seq<T>,
    /// The index buffer built so far.
    pub ib: Seq<int>,
}

/// One reference: a cache hit reuses the stored slot; a miss materializes
/// `vert` at the next slot, unless that slot exceeds the index width.
pub open spec fn cache_step<M, T>(st: GCache<M, T>, key: T, vert: M, maxv: int) -> Result<
    GCache<M, T>,
    ErrModel,
> {
    let j = find_in(st.keys, key);
    if j < st.keys.len() {
        Ok(GCache { vb: st.vb, keys: st.keys, ib: st.ib.push(j) })
    } else if st.vb.len() > maxv {
        Err(ErrModel::Load(LoadErrorKind::IndexOutOfRange))
    } else {
        Ok(
            GCache {
                vb: st.vb.push(vert),
                keys: st.keys.push(key),
                ib: st.ib.push(st.vb.len() as int),
            },
        )
    }
}

/// The build state is consistent with the references seen so far: one
/// vertex per distinct combination, in first-seen order, and every index
/// points at its reference's combination.
pub open spec fn cache_inv<M, T>(st: GCache<M, T>, refs: Seq<T>) -> bool {
    &&& st.keys == dedup_first(refs)
    &&& st.vb.len() == st.keys.len()
    &&& st.ib.len() == refs.len()
    &&& forall|j: int|
        0 <= j < st.ib.len() ==> 0 <= #[trigger] st.ib[j] < st.keys.len() && st.keys[st.ib[j]]
            == refs[j]
}

/// A cache step keeps the state consistent.
pub proof fn lemma_cache_step_inv<M, T>(st: GCache<M, T>, key: T, vert: M, maxv: int, refs: Seq<T>)
    requires
        cache_inv(st, refs),
        cache_step(st, key, vert, maxv) is Ok,
    ensures
        cache_inv(cache_step(st, key, vert, maxv)->Ok_0, refs.push(key)),
{
    lemma_find_in(st.keys, key);
    let j = find_in(st.keys, key);
    let st2 = cache_step(st, key, vert, maxv)->Ok_0;
    let refs2 = refs.push(key);
    assert(refs2.drop_last() =~= refs);
    assert(refs2.last() == key);
    if j < st.keys.len() {
        assert(st2.keys == dedup_first(refs2));
        assert forall|k: int|
            0 <= k < st2.ib.len() implies 0 <= #[trigger] st2.ib[k] < st2.keys.len()
            && st2.keys[st2.ib[k]] == refs2[k] by {
            if k < refs.len() {
                assert(st2.ib[k] == st.ib[k]);
                assert(refs2[k] == refs[k]);
            } else {
                assert(st2.ib[k] == j);
            }
        }
    } else {
        assert(st2.keys == dedup_first(refs2));
        assert forall|k: int|
            0 <= k < st2.ib.len() implies 0 <= #[trigger] st2.ib[k] < st2.keys.len()
            && st2.keys[st2.ib[k]] == refs2[k] by {
            if k < refs.len() {
                assert(st2.ib[k] == st.ib[k]);
                assert(refs2[k] == refs[k]);
                assert(st2.keys[st.ib[k]] == st.keys[st.ib[k]]);
            } else {
                assert(st2.ib[k] == st.keys.len() as int);
                assert(st2.keys[st.keys.len() as int] == key);
            }
        }
    }
}

/// The distinct combinations are pairwise different.
pub proof fn lemma_dedup_first_distinct<T>(s: Seq<T>)
    ensures
        forall|i: int, j: int|
            0 <= i < j < dedup_first(s).len() ==> dedup_first(s)[i] != dedup_first(s)[j],
    decreases s.len(),
{
    if s.len() > 0 {
        lemma_dedup_first_distinct(s.drop_last());
        let d = dedup_first(s.drop_last());
        lemma_find_in(d, s.last());
        let whole = dedup_first(s);
        if find_in(d, s.last()) < d.len() {
        } else {
            assert forall|i: int, j: int| 0 <= i < j < whole.len() implies whole[i] != whole[j] by {
                if j < d.len() {
                    assert(whole[i] == d[i]);
                    assert(whole[j] == d[j]);
                } else {
                    assert(whole[i] == d[i]);
                    assert(whole[j] == s.last());
                    assert(d[i] != s.last());
                }
            }
        }
    }
}

/// The three position components of a position record.
pub open spec fn g4_position(t: G4) -> G3 {
    (t.0, t.1, t.2)
}

/// Vertex data holding only a position, as float tokens.
#[derive(Debug, PartialEq)]
pub struct Position {
    /// Position of the vertex.
    pub position: (String, String, String),
}

/// What a polygon contributes to a position-only index buffer: its three
/// position indices, whatever its shape.
pub open spec fn position_pick(p: GPolygon) -> Result<Seq<usize>, ErrModel> {
    match p {
        GPolygon::P(v) => if v.len() == 3 {
            Ok(v)
        } else {
            Err(ErrModel::Load(LoadErrorKind::UntriangulatedModel))
        },
        GPolygon::PT(v) => if v.len() == 3 {
            Ok(v.map(|i: int, r: (usize, usize)| r.0))
        } else {
            Err(ErrModel::Load(LoadErrorKind::UntriangulatedModel))
        },
        GPolygon::PN(v) => if v.len() == 3 {
            Ok(v.map(|i: int, r: (usize, usize)| r.0))
        } else {
            Err(ErrModel::Load(LoadErrorKind::UntriangulatedModel))
        },
        GPolygon::PTN(v) => if v.len() == 3 {
            Ok(v.map(|i: int, r: (usize, usize, usize)| r.0))
        } else {
            Err(ErrModel::Load(LoadErrorKind::UntriangulatedModel))
        },
    }
}

/// The position-only index buffer: three raw position indices per
/// triangle, each converted into the index width.
pub open spec fn position_fold(polys: Seq<GPolygon>, maxv: int) -> Result<Seq<int>, ErrModel>
    decreases polys.len(),
{
    if polys.len() == 0 {
        Ok(Seq::empty())
    } else {
        match position_fold(polys.drop_last(), maxv) {
            Err(e) => Err(e),
            Ok(ib) => match position_pick(polys.last()) {
                Err(e) => Err(e),
                Ok(idxs) => if idxs[0] > maxv {
                    Err(ErrModel::Load(LoadErrorKind::IndexOutOfRange))
                } else if idxs[1] > maxv {
                    Err(ErrModel::Load(LoadErrorKind::IndexOutOfRange))
                } else if idxs[2] > maxv {
                    Err(ErrModel::Load(LoadErrorKind::IndexOutOfRange))
                } else {
                    Ok(ib + seq![idxs[0] as int, idxs[1] as int, idxs[2] as int])
                },
            },
        }
    }
}

/// A failed prefix decides the whole fold.
proof fn lemma_position_fold_prefix_err(polys: Seq<GPolygon>, maxv: int, i: int)
    requires
        0 <= i <= polys.len(),
        position_fold(polys.take(i), maxv) is Err,
    ensures
        position_fold(polys, maxv) == position_fold(polys.take(i), maxv),
    decreases polys.len() - i,
{
    if i == polys.len() {
        assert(polys.take(i) =~= polys);
    } else {
        assert(polys.take(i + 1).drop_last() =~= polys.take(i));
        lemma_position_fold_prefix_err(polys, maxv, i + 1);
    }
}

impl Modeled for Position {
    type Model = G3;

    open spec fn vertex_model(&self) -> G3 {
        (self.position.0@, self.position.1@, self.position.2@)
    }
}

impl<I: VertexIndex> FromRawVertex<I> for Position {
    open spec fn process_spec(
        positions: Seq<G4>,
        normals: Seq<G3>,
        tex_coords: Seq<G3>,
        polygons: Seq<GPolygon>,
    ) -> Result<(Seq<G3>, Seq<int>), ErrModel> {
        match position_fold(polygons, I::max_index()) {
            Err(e) => Err(e),
            Ok(ib) => Ok((positions.map(|i: int, t: G4| g4_position(t)), ib)),
        }
    }

    fn process(
        vertices: Vec<(String, String, String, String)>,
        normals: Vec<(String, String, String)>,
        tex_coords: Vec<(String, String, String)>,
        polygons: Vec<Polygon>,
    ) -> (r: ObjResult<(Vec<Position>, Vec<I>)>) {
        let ghost pm = crate::raw::object::polys_model(polygons@);
        let ghost psm = crate::raw::object::f4s_model(vertices@);
        let mut vb: Vec<Position> = Vec::new();
        let mut k: usize = 0;
        proof {
            assert(vb@.map(|i: int, x: Position| x.vertex_model()) =~= psm.map(
                |i: int, t: G4| g4_position(t),
            ).take(0));
        }
        while k < vertices.len()
            invariant
                k <= vertices@.len(),
                psm == crate::raw::object::f4s_model(vertices@),
                vb@.len() == k,
                vb@.map(|i: int, x: Position| x.vertex_model()) == psm.map(
                    |i: int, t: G4| g4_position(t),
                ).take(k as int),
            decreases vertices@.len() - k,
        {
            let v = &vertices[k];
            let p = Position { position: (v.0.clone(), v.1.clone(), v.2.clone()) };
            let ghost vb0 = vb@;
            vb.push(p);
            proof {
                assert(psm[k as int] == crate::raw::object::f4_model(vertices@[k as int]));
                let lhs = vb@.map(|i: int, x: Position| x.vertex_model());
                let rhs = psm.map(|i: int, t: G4| g4_position(t)).take(k + 1 as int);
                assert forall|j: int| 0 <= j < lhs.len() implies lhs[j] == rhs[j] by {
                    if j < vb0.len() {
                        assert(vb@[j] == vb0[j]);
                        assert(vb0.map(|i: int, x: Position| x.vertex_model())[j] == vb0[
                            j
                        ].vertex_model());
                    } else {
                        assert(vb@[j] == p);
                        assert(psm.map(|i: int, t: G4| g4_position(t))[j] == g4_position(psm[j]));
                    }
                }
                assert(lhs =~= rhs);
            }
            k += 1;
        }
        proof {
            assert(psm.map(|i: int, t: G4| g4_position(t)).take(vertices@.len() as int) =~= psm.map(
                |i: int, t: G4| g4_position(t),
            ));
        }
        let mut ib: Vec<I> = Vec::new();
        let mut i: usize = 0;
        proof {
            assert(pm.take(0) =~= Seq::<GPolygon>::empty());
            assert(ib@.map(|j: int, x: I| x.idx_int()) =~= Seq::<int>::empty());
        }
        while i < polygons.len()
            invariant
                i <= polygons@.len(),
                pm == crate::raw::object::polys_model(polygons@),
                psm == crate::raw::object::f4s_model(vertices@),
                vb@.len() == vertices@.len(),
                crate::raw::object::polys_in_bounds(
                    vertices@.len() as int,
                    tex_coords@.len() as int,
                    normals@.len() as int,
                    pm,
                ),
                position_fold(pm.take(i as int), I::max_index()) == Ok::<Seq<int>, ErrModel>(
                    ib@.map(|j: int, x: I| x.idx_int()),
                ),
                forall|j: int|
                    0 <= j < ib@.len() ==> 0 <= (#[trigger] ib@[j]).idx_int() < vb@.len(),
                ib@.len() == 3 * i,
            decreases polygons@.len() - i,
        {
            proof {
                assert(pm[i as int] == crate::raw::object::poly_model(polygons@[i as int]));
                assert(pm.take(i + 1 as int).drop_last() =~= pm.take(i as int));
                assert(pm.take(i + 1 as int).last() == pm[i as int]);
                assert(crate::raw::object::gpoly_in_bounds(
                    pm[i as int],
                    vertices@.len() as int,
                    tex_coords@.len() as int,
                    normals@.len() as int,
                ));
            }
            let (a, b, c): (usize, usize, usize) = match &polygons[i] {
                Polygon::P(v) => {
                    if v.len() != 3 {
                        proof {
                            lemma_position_fold_prefix_err(pm, I::max_index(), i + 1);
                        }
                        return Err(
                            ObjError::Load(
                                LoadError::new(
                                    LoadErrorKind::UntriangulatedModel,
                                    "Model should be triangulated first to be loaded properly",
                                ),
                            ),
                        );
                    }
                    (v[0], v[1], v[2])
                },
                Polygon::PT(v) => {
                    if v.len() != 3 {
                        proof {
                            lemma_position_fold_prefix_err(pm, I::max_index(), i + 1);
                        }
                        return Err(
                            ObjError::Load(
                                LoadError::new(
                                    LoadErrorKind::UntriangulatedModel,
                                    "Model should be triangulated first to be loaded properly",
                                ),
                            ),
                        );
                    }
                    proof {
                        let gv = crate::raw::object::poly_model(polygons@[i as int])->PT_0;
                        assert(gv.map(|ii: int, rr: (usize, usize)| rr.0)[0] == gv[0].0);
                        assert(gv.map(|ii: int, rr: (usize, usize)| rr.0)[1] == gv[1].0);
                        assert(gv.map(|ii: int, rr: (usize, usize)| rr.0)[2] == gv[2].0);
                    }
                    (v[0].0, v[1].0, v[2].0)
                },
                Polygon::PN(v) => {
                    if v.len() != 3 {
                        proof {
                            lemma_position_fold_prefix_err(pm, I::max_index(), i + 1);
                        }
                        return Err(
                            ObjError::Load(
                                LoadError::new(
                                    LoadErrorKind::UntriangulatedModel,
                                    "Model should be triangulated first to be loaded properly",
                                ),
                            ),
                        );
                    }
                    proof {
                        let gv = crate::raw::object::poly_model(polygons@[i as int])->PN_0;
                        assert(gv.map(|ii: int, rr: (usize, usize)| rr.0)[0] == gv[0].0);
                        assert(gv.map(|ii: int, rr: (usize, usize)| rr.0)[1] == gv[1].0);
                        assert(gv.map(|ii: int, rr: (usize, usize)| rr.0)[2] == gv[2].0);
                    }
                    (v[0].0, v[1].0, v[2].0)
                },
                Polygon::PTN(v) => {
                    if v.len() != 3 {
                        proof {
                            lemma_position_fold_prefix_err(pm, I::max_index(), i + 1);
                        }
                        return Err(
                            ObjError::Load(
                                LoadError::new(
                                    LoadErrorKind::UntriangulatedModel,
                                    "Model should be triangulated first to be loaded properly",
                                ),
                            ),
                        );
                    }
                    proof {
                        let gv = crate::raw::object::poly_model(polygons@[i as int])->PTN_0;
                        assert(gv.map(|ii: int, rr: (usize, usize, usize)| rr.0)[0] == gv[0].0);
                        assert(gv.map(|ii: int, rr: (usize, usize, usize)| rr.0)[1] == gv[1].0);
                        assert(gv.map(|ii: int, rr: (usize, usize, usize)| rr.0)[2] == gv[2].0);
                    }
                    (v[0].0, v[1].0, v[2].0)
                },
            };
            let ia = match I::from_count(a) {
                Some(x) => x,
                None => {
                    proof {
                        lemma_position_fold_prefix_err(pm, I::max_index(), i + 1);
                    }
                    return Err(
                        ObjError::Load(
                            LoadError::new(
                                LoadErrorKind::IndexOutOfRange,
                                "Unable to convert the index from usize",
                            ),
                        ),
                    );
                },
            };
            let ib_ = match I::from_count(b) {
                Some(x) => x,
                None => {
                    proof {
                        lemma_position_fold_prefix_err(pm, I::max_index(), i + 1);
                    }
                    return Err(
                        ObjError::Load(
                            LoadError::new(
                                LoadErrorKind::IndexOutOfRange,
                                "Unable to convert the index from usize",
                            ),
                        ),
                    );
                },
            };
            let ic = match I::from_count(c) {
                Some(x) => x,
                None => {
                    proof {
                        lemma_position_fold_prefix_err(pm, I::max_index(), i + 1);
                    }
                    return Err(
                        ObjError::Load(
                            LoadError::new(
                                LoadErrorKind::IndexOutOfRange,
                                "Unable to convert the index from usize",
                            ),
                        ),
                    );
                },
            };
            let ghost ib0 = ib@;
            let ghost ibm0 = ib@.map(|j: int, x: I| x.idx_int());
            ib.push(ia);
            ib.push(ib_);
            ib.push(ic);
            proof {
                let ibm = ib@.map(|j: int, x: I| x.idx_int());
                let target = ibm0 + seq![a as int, b as int, c as int];
                assert forall|j: int| 0 <= j < ibm.len() implies ibm[j] == target[j] by {
                    if j < ib0.len() {
                        assert(ib@[j] == ib0[j]);
                        assert(ibm0[j] == ib0[j].idx_int());
                    } else if j == ib0.len() {
                        assert(ib@[j] == ia);
                    } else if j == ib0.len() + 1 {
                        assert(ib@[j] == ib_);
                    } else {
                        assert(ib@[j] == ic);
                    }
                }
                assert(ibm =~= target);
                assert forall|j: int|
                    0 <= j < ib@.len() implies 0 <= (#[trigger] ib@[j]).idx_int() < vb@.len() by {
                    if j < ib0.len() {
                        assert(ib@[j] == ib0[j]);
                    }
                }
            }
            i += 1;
        }
        proof {
            assert(pm.take(polygons@.len() as int) =~= pm);
        }
        Ok((vb, ib))
    }
}

/// Vertex data holding a position and a normal, as float tokens.
#[derive(Debug, PartialEq)]
pub struct Vertex {
    /// Position of the vertex.
    pub position: (String, String, String),
    /// Normal of the vertex.
    pub normal: (String, String, String),
}

/// The model of a `Vertex`.
pub struct GVertex {
    /// Position of the vertex.
    pub position: G3,
    /// Normal of the vertex.
    pub normal: G3,
}

impl Modeled for Vertex {
    type Model = GVertex;

    open spec fn vertex_model(&self) -> GVertex {
        GVertex {
            position: (self.position.0@, self.position.1@, self.position.2@),
            normal: (self.normal.0@, self.normal.1@, self.normal.2@),
        }
    }
}

/// The `(position, normal)` combination of each reference of a triangle
/// carrying normals; other polygons contribute nothing.
pub open spec fn pn_keys_of(p: GPolygon) -> Seq<(usize, usize)> {
    match p {
        GPolygon::PN(v) => if v.len() == 3 {
            seq![(v[0].0, v[0].1), (v[1].0, v[1].1), (v[2].0, v[2].1)]
        } else {
            Seq::empty()
        },
        GPolygon::PTN(v) => if v.len() == 3 {
            seq![(v[0].0, v[0].2), (v[1].0, v[1].2), (v[2].0, v[2].2)]
        } else {
            Seq::empty()
        },
        _ => Seq::empty(),
    }
}

/// The `(position, normal)` combinations referenced by the polygons, in
/// order.
pub open spec fn pn_refs(polys: Seq<GPolygon>) -> Seq<(usize, usize)>
    decreases polys.len(),
{
    if polys.len() == 0 {
        Seq::empty()
    } else {
        pn_refs(polys.drop_last()) + pn_keys_of(polys.last())
    }
}

/// The vertex materialized for a `(position, normal)` combination.
pub open spec fn gvertex_of(positions: Seq<G4>, normals: Seq<G3>, p: usize, n: usize) -> GVertex {
    GVertex { position: g4_position(positions[p as int]), normal: normals[n as int] }
}

/// What one triangle does to the position/normal build state.
pub open spec fn vertex_poly_step(
    positions: Seq<G4>,
    normals: Seq<G3>,
    st: GCache<GVertex, (usize, usize)>,
    poly: GPolygon,
    maxv: int,
) -> Result<GCache<GVertex, (usize, usize)>, ErrModel> {
    match poly {
        GPolygon::P(_) => Err(ErrModel::Load(LoadErrorKind::InsufficientData)),
        GPolygon::PT(_) => Err(ErrModel::Load(LoadErrorKind::InsufficientData)),
        GPolygon::PN(v) => if v.len() == 3 {
            vertex_chain3(
                positions,
                normals,
                st,
                (v[0].0, v[0].1),
                (v[1].0, v[1].1),
                (v[2].0, v[2].1),
                maxv,
            )
        } else {
            Err(ErrModel::Load(LoadErrorKind::UntriangulatedModel))
        },
        GPolygon::PTN(v) => if v.len() == 3 {
            vertex_chain3(
                positions,
                normals,
                st,
                (v[0].0, v[0].2),
                (v[1].0, v[1].2),
                (v[2].0, v[2].2),
                maxv,
            )
        } else {
            Err(ErrModel::Load(LoadErrorKind::UntriangulatedModel))
        },
    }
}

/// Three cache steps, one per reference of a triangle.
pub open spec fn vertex_chain3(
    positions: Seq<G4>,
    normals: Seq<G3>,
    st: GCache<GVertex, (usize, usize)>,
    k0: (usize, usize),
    k1: (usize, usize),
    k2: (usize, usize),
    maxv: int,
) -> Result<GCache<GVertex, (usize, usize)>, ErrModel> {
    match cache_step(st, k0, gvertex_of(positions, normals, k0.0, k0.1), maxv) {
        Err(e) => Err(e),
        Ok(s1) => match cache_step(s1, k1, gvertex_of(positions, normals, k1.0, k1.1), maxv) {
            Err(e) => Err(e),
            Ok(s2) => cache_step(s2, k2, gvertex_of(positions, normals, k2.0, k2.1), maxv),
        },
    }
}

/// The position/normal build state after the given polygons.
pub open spec fn vertex_fold(
    positions: Seq<G4>,
    normals: Seq<G3>,
    polys: Seq<GPolygon>,
    maxv: int,
) -> Result<GCache<GVertex, (usize, usize)>, ErrModel>
    decreases polys.len(),
{
    if polys.len() == 0 {
        Ok(GCache { vb: Seq::empty(), keys: Seq::empty(), ib: Seq::empty() })
    } else {
        match vertex_fold(positions, normals, polys.drop_last(), maxv) {
            Err(e) => Err(e),
            Ok(st) => vertex_poly_step(positions, normals, st, polys.last(), maxv),
        }
    }
}

/// A failed prefix decides the whole fold.
proof fn lemma_vertex_fold_prefix_err(
    positions: Seq<G4>,
    normals: Seq<G3>,
    polys: Seq<GPolygon>,
    maxv: int,
    i: int,
)
    requires
        0 <= i <= polys.len(),
        vertex_fold(positions, normals, polys.take(i), maxv) is Err,
    ensures
        vertex_fold(positions, normals, polys, maxv) == vertex_fold(
            positions,
            normals,
            polys.take(i),
            maxv,
        ),
    decreases polys.len() - i,
{
    if i == polys.len() {
        assert(polys.take(i) =~= polys);
    } else {
        assert(polys.take(i + 1).drop_last() =~= polys.take(i));
        lemma_vertex_fold_prefix_err(positions, normals, polys, maxv, i + 1);
    }
}

/// A successful position/normal build is consistent with its references:
/// one vertex per distinct combination, every index pointing at its
/// reference's combination, and three references per polygon.
pub proof fn lemma_vertex_fold_inv(
    positions: Seq<G4>,
    normals: Seq<G3>,
    polys: Seq<GPolygon>,
    maxv: int,
)
    requires
        vertex_fold(positions, normals, polys, maxv) is Ok,
        maxv >= 0,
    ensures
        cache_inv(vertex_fold(positions, normals, polys, maxv)->Ok_0, pn_refs(polys)),
        vertex_fold(positions, normals, polys, maxv)->Ok_0.keys.len() <= maxv + 1,
        pn_refs(polys).len() == 3 * polys.len(),
    decreases polys.len(),
{
    if polys.len() == 0 {
        let st = vertex_fold(positions, normals, polys, maxv)->Ok_0;
        assert(st.keys =~= dedup_first(pn_refs(polys)));
    } else {
        lemma_vertex_fold_inv(positions, normals, polys.drop_last(), maxv);
        let st = vertex_fold(positions, normals, polys.drop_last(), maxv)->Ok_0;
        let refs = pn_refs(polys.drop_last());
        let poly = polys.last();
        let ks = pn_keys_of(poly);
        assert(ks.len() == 3);
        let k0 = ks[0];
        let k1 = ks[1];
        let k2 = ks[2];
        let v0 = gvertex_of(positions, normals, k0.0, k0.1);
        let v1 = gvertex_of(positions, normals, k1.0, k1.1);
        let v2 = gvertex_of(positions, normals, k2.0, k2.1);
        let s1 = cache_step(st, k0, v0, maxv)->Ok_0;
        let s2 = cache_step(s1, k1, v1, maxv)->Ok_0;
        lemma_cache_step_inv(st, k0, v0, maxv, refs);
        lemma_cache_step_inv(s1, k1, v1, maxv, refs.push(k0));
        lemma_cache_step_inv(s2, k2, v2, maxv, refs.push(k0).push(k1));
        assert(pn_refs(polys) =~= refs.push(k0).push(k1).push(k2));
    }
}

/// Finds a `(position, normal)` combination among the cache keys.
fn find_pair(keys: &Vec<(usize, usize)>, p: usize, n: usize) -> (r: usize)
    ensures
        r == find_in(keys@, (p, n)),
{
    let mut i: usize = 0;
    while i < keys.len()
        invariant
            i <= keys@.len(),
            forall|j: int| 0 <= j < i ==> keys@[j] != (p, n),
        decreases keys@.len() - i,
    {
        if keys[i].0 == p && keys[i].1 == n {
            proof {
                lemma_find_in_unique(keys@, (p, n), i as int);
            }
            return i;
        }
        i += 1;
    }
    proof {
        lemma_find_in_unique(keys@, (p, n), keys@.len() as int);
    }
    i
}

/// The model of a position/normal build state.
pub open spec fn vertex_cache_model<I: VertexIndex>(
    vb: Seq<Vertex>,
    keys: Seq<(usize, usize)>,
    ib: Seq<I>,
) -> GCache<GVertex, (usize, usize)> {
    GCache {
        vb: vb.map(|i: int, x: Vertex| x.vertex_model()),
        keys,
        ib: ib.map(|i: int, x: I| x.idx_int()),
    }
}

/// Emits one position/normal reference: reuses a cached slot or
/// materializes the vertex.
fn vertex_emit<I: VertexIndex>(
    vertices: &Vec<(String, String, String, String)>,
    normals: &Vec<(String, String, String)>,
    vb: &mut Vec<Vertex>,
    keys: &mut Vec<(usize, usize)>,
    ib: &mut Vec<I>,
    p: usize,
    n: usize,
) -> (r: Result<(), ObjError>)
    requires
        p < vertices@.len(),
        n < normals@.len(),
        old(vb)@.len() == old(keys)@.len(),
        old(keys)@.len() <= I::max_index() + 1,
    ensures
        match r {
            Ok(()) => {
                &&& cache_step(
                    vertex_cache_model(old(vb)@, old(keys)@, old(ib)@),
                    (p, n),
                    gvertex_of(
                        crate::raw::object::f4s_model(vertices@),
                        crate::raw::object::f3s_model(normals@),
                        p,
                        n,
                    ),
                    I::max_index(),
                ) == Ok::<GCache<GVertex, (usize, usize)>, ErrModel>(
                    vertex_cache_model(final(vb)@, final(keys)@, final(ib)@),
                )
                &&& final(vb)@.len() == final(keys)@.len()
                &&& final(keys)@.len() <= I::max_index() + 1
            },
            Err(e) => cache_step(
                vertex_cache_model(old(vb)@, old(keys)@, old(ib)@),
                (p, n),
                gvertex_of(
                    crate::raw::object::f4s_model(vertices@),
                    crate::raw::object::f3s_model(normals@),
                    p,
                    n,
                ),
                I::max_index(),
            ) == Err::<GCache<GVertex, (usize, usize)>, ErrModel>(err_model(e)),
        },
{
    let ghost m0 = vertex_cache_model(old(vb)@, old(keys)@, old(ib)@);
    let j = find_pair(keys, p, n);
    if j < keys.len() {
        let ix = match I::from_count(j) {
            Some(x) => x,
            None => {
                proof {
                    assert(false);
                }
                vstd::pervasive::unreached()
            },
        };
        let ghost ib0 = ib@;
        ib.push(ix);
        proof {
            let lhs = ib@.map(|i: int, x: I| x.idx_int());
            let rhs = ib0.map(|i: int, x: I| x.idx_int()).push(j as int);
            assert forall|k: int| 0 <= k < lhs.len() implies lhs[k] == rhs[k] by {
                if k < ib0.len() {
                    assert(ib@[k] == ib0[k]);
                    assert(ib0.map(|i: int, x: I| x.idx_int())[k] == ib0[k].idx_int());
                } else {
                    assert(ib@[k] == ix);
                }
            }
            assert(lhs =~= rhs);
        }
        Ok(())
    } else {
        let ix = match I::from_count(vb.len()) {
            Some(x) => x,
            None => {
                return Err(
                    ObjError::Load(
                        LoadError::new(
                            LoadErrorKind::IndexOutOfRange,
                            "Unable to convert the index from usize",
                        ),
                    ),
                );
            },
        };
        let pv = &vertices[p];
        let nv = &normals[n];
        let vert = Vertex {
            position: (pv.0.clone(), pv.1.clone(), pv.2.clone()),
            normal: (nv.0.clone(), nv.1.clone(), nv.2.clone()),
        };
        let ghost vb0 = vb@;
        let ghost keys0 = keys@;
        let ghost ib0 = ib@;
        vb.push(vert);
        keys.push((p, n));
        ib.push(ix);
        proof {
            assert(crate::raw::object::f4s_model(vertices@)[p as int]
                == crate::raw::object::f4_model(vertices@[p as int]));
            assert(crate::raw::object::f3s_model(normals@)[n as int]
                == crate::raw::object::f3_model(normals@[n as int]));
            let gv = gvertex_of(
                crate::raw::object::f4s_model(vertices@),
                crate::raw::object::f3s_model(normals@),
                p,
                n,
            );
            assert(vert.vertex_model() == gv);
            let lhsv = vb@.map(|i: int, x: Vertex| x.vertex_model());
            let rhsv = vb0.map(|i: int, x: Vertex| x.vertex_model()).push(gv);
            assert forall|k: int| 0 <= k < lhsv.len() implies lhsv[k] == rhsv[k] by {
                if k < vb0.len() {
                    assert(vb@[k] == vb0[k]);
                    assert(vb0.map(|i: int, x: Vertex| x.vertex_model())[k] == vb0[
                        k
                    ].vertex_model());
                } else {
                    assert(vb@[k] == vert);
                }
            }
            assert(lhsv =~= rhsv);
            let lhsi = ib@.map(|i: int, x: I| x.idx_int());
            let rhsi = ib0.map(|i: int, x: I| x.idx_int()).push(vb0.len() as int);
            assert forall|k: int| 0 <= k < lhsi.len() implies lhsi[k] == rhsi[k] by {
                if k < ib0.len() {
                    assert(ib@[k] == ib0[k]);
                    assert(ib0.map(|i: int, x: I| x.idx_int())[k] == ib0[k].idx_int());
                } else {
                    assert(ib@[k] == ix);
                }
            }
            assert(lhsi =~= rhsi);
        }
        Ok(())
    }
}

impl<I: VertexIndex> FromRawVertex<I> for Vertex {
    open spec fn process_spec(
        positions: Seq<G4>,
        normals: Seq<G3>,
        tex_coords: Seq<G3>,
        polygons: Seq<GPolygon>,
    ) -> Result<(Seq<GVertex>, Seq<int>), ErrModel> {
        match vertex_fold(positions, normals, polygons, I::max_index()) {
            Err(e) => Err(e),
            Ok(st) => Ok((st.vb, st.ib)),
        }
    }

    fn process(
        vertices: Vec<(String, String, String, String)>,
        normals: Vec<(String, String, String)>,
        tex_coords: Vec<(String, String, String)>,
        polygons: Vec<Polygon>,
    ) -> (r: ObjResult<(Vec<Vertex>, Vec<I>)>) {
        let ghost pm = crate::raw::object::polys_model(polygons@);
        let ghost psm = crate::raw::object::f4s_model(vertices@);
        let ghost nsm = crate::raw::object::f3s_model(normals@);
        let mut vb: Vec<Vertex> = Vec::new();
        let mut keys: Vec<(usize, usize)> = Vec::new();
        let mut ib: Vec<I> = Vec::new();
        let mut i: usize = 0;
        proof {
            assert(pm.take(0) =~= Seq::<GPolygon>::empty());
            let m = vertex_cache_model(vb@, keys@, ib@);
            assert(m.vb =~= Seq::<GVertex>::empty());
            assert(m.keys =~= Seq::<(usize, usize)>::empty());
            assert(m.ib =~= Seq::<int>::empty());
        }
        while i < polygons.len()
            invariant
                i <= polygons@.len(),
                pm == crate::raw::object::polys_model(polygons@),
                psm == crate::raw::object::f4s_model(vertices@),
                nsm == crate::raw::object::f3s_model(normals@),
                crate::raw::object::polys_in_bounds(
                    vertices@.len() as int,
                    tex_coords@.len() as int,
                    normals@.len() as int,
                    pm,
                ),
                vertex_fold(psm, nsm, pm.take(i as int), I::max_index()) == Ok::<
                    GCache<GVertex, (usize, usize)>,
                    ErrModel,
                >(vertex_cache_model(vb@, keys@, ib@)),
            decreases polygons@.len() - i,
        {
            proof {
                assert(pm[i as int] == crate::raw::object::poly_model(polygons@[i as int]));
                assert(pm.take(i + 1 as int).drop_last() =~= pm.take(i as int));
                assert(pm.take(i + 1 as int).last() == pm[i as int]);
                assert(crate::raw::object::gpoly_in_bounds(
                    pm[i as int],
                    vertices@.len() as int,
                    tex_coords@.len() as int,
                    normals@.len() as int,
                ));
                I::max_index_nonneg();
                lemma_vertex_fold_inv(psm, nsm, pm.take(i as int), I::max_index());
                assert(psm.len() == vertices@.len());
                assert(nsm.len() == normals@.len());
            }
            let refs: ((usize, usize), (usize, usize), (usize, usize)) = match &polygons[i] {
                Polygon::P(_) => {
                    proof {
                        lemma_vertex_fold_prefix_err(psm, nsm, pm, I::max_index(), i + 1);
                    }
                    return Err(
                        ObjError::Load(
                            LoadError::new(
                                LoadErrorKind::InsufficientData,
                                "Tried to extract normal data which are not contained in the model",
                            ),
                        ),
                    );
                },
                Polygon::PT(_) => {
                    proof {
                        lemma_vertex_fold_prefix_err(psm, nsm, pm, I::max_index(), i + 1);
                    }
                    return Err(
                        ObjError::Load(
                            LoadError::new(
                                LoadErrorKind::InsufficientData,
                                "Tried to extract normal data which are not contained in the model",
                            ),
                        ),
                    );
                },
                Polygon::PN(v) => {
                    if v.len() != 3 {
                        proof {
                            lemma_vertex_fold_prefix_err(psm, nsm, pm, I::max_index(), i + 1);
                        }
                        return Err(
                            ObjError::Load(
                                LoadError::new(
                                    LoadErrorKind::UntriangulatedModel,
                                    "Model should be triangulated first to be loaded properly",
                                ),
                            ),
                        );
                    }
                    ((v[0].0, v[0].1), (v[1].0, v[1].1), (v[2].0, v[2].1))
                },
                Polygon::PTN(v) => {
                    if v.len() != 3 {
                        proof {
                            lemma_vertex_fold_prefix_err(psm, nsm, pm, I::max_index(), i + 1);
                        }
                        return Err(
                            ObjError::Load(
                                LoadError::new(
                                    LoadErrorKind::UntriangulatedModel,
                                    "Model should be triangulated first to be loaded properly",
                                ),
                            ),
                        );
                    }
                    ((v[0].0, v[0].2), (v[1].0, v[1].2), (v[2].0, v[2].2))
                },
            };
            match vertex_emit(&vertices, &normals, &mut vb, &mut keys, &mut ib, refs.0.0, refs.0.1)
            {
                Ok(()) => {},
                Err(e) => {
                    proof {
                        lemma_vertex_fold_prefix_err(psm, nsm, pm, I::max_index(), i + 1);
                    }
                    return Err(e);
                },
            }
            match vertex_emit(&vertices, &normals, &mut vb, &mut keys, &mut ib, refs.1.0, refs.1.1)
            {
                Ok(()) => {},
                Err(e) => {
                    proof {
                        lemma_vertex_fold_prefix_err(psm, nsm, pm, I::max_index(), i + 1);
                    }
                    return Err(e);
                },
            }
            match vertex_emit(&vertices, &normals, &mut vb, &mut keys, &mut ib, refs.2.0, refs.2.1)
            {
                Ok(()) => {},
                Err(e) => {
                    proof {
                        lemma_vertex_fold_prefix_err(psm, nsm, pm, I::max_index(), i + 1);
                    }
                    return Err(e);
                },
            }
            i += 1;
        }
        proof {
            assert(pm.take(polygons@.len() as int) =~= pm);
            I::max_index_nonneg();
            lemma_vertex_fold_inv(psm, nsm, pm, I::max_index());
            let st = vertex_cache_model(vb@, keys@, ib@);
            assert(st.ib.len() == ib@.len());
            assert(st.vb.len() == vb@.len());
            assert forall|k: int|
                0 <= k < ib@.len() implies 0 <= (#[trigger] ib@[k]).idx_int() < vb@.len() by {
                assert(st.ib[k] == ib@[k].idx_int());
                assert(0 <= st.ib[k] < st.keys.len());
            }
            assert(pn_refs(pm).len() == 3 * polygons@.len());
        }
        Ok((vb, ib))
    }
}

/// Two references to one position/normal combination share one
/// vertex-buffer slot, distinct combinations get distinct slots, and the
/// buffer holds exactly one vertex per distinct referenced combination.
pub proof fn lemma_vertex_dedup<I: VertexIndex>(
    positions: Seq<G4>,
    normals: Seq<G3>,
    tex_coords: Seq<G3>,
    polys: Seq<GPolygon>,
)
    requires
        <Vertex as FromRawVertex<I>>::process_spec(positions, normals, tex_coords, polys) is Ok,
        I::max_index() >= 0,
    ensures
        ({
            let b = <Vertex as FromRawVertex<I>>::process_spec(
                positions,
                normals,
                tex_coords,
                polys,
            )->Ok_0;
            let refs = pn_refs(polys);
            &&& b.0.len() == dedup_first(refs).len()
            &&& b.1.len() == refs.len()
            &&& forall|j: int, k: int|
                0 <= j < refs.len() && 0 <= k < refs.len() ==> (b.1[j] == b.1[k] <==> refs[j]
                    == refs[k])
        }),
{
    lemma_vertex_fold_inv(positions, normals, polys, I::max_index());
    let st = vertex_fold(positions, normals, polys, I::max_index())->Ok_0;
    let refs = pn_refs(polys);
    lemma_dedup_first_distinct(refs);
    assert forall|j: int, k: int|
        0 <= j < refs.len() && 0 <= k < refs.len() implies (st.ib[j] == st.ib[k] <==> refs[j]
        == refs[k]) by {
        assert(st.keys[st.ib[j]] == refs[j]);
        assert(st.keys[st.ib[k]] == refs[k]);
    }
}

/// Vertex data holding position, normal and texture coordinates, as float
/// tokens.
#[derive(Debug, PartialEq)]
pub struct TexturedVertex {
    /// Position of the vertex.
    pub position: (String, String, String),
    /// Normal of the vertex.
    pub normal: (String, String, String),
    /// Texture coordinates of the vertex.
    pub texture: (String, String, String),
}

/// The model of a `TexturedVertex`.
pub struct GTVertex {
    /// Position of the vertex.
    pub position: G3,
    /// Normal of the vertex.
    pub normal: G3,
    /// Texture coordinates of the vertex.
    pub texture: G3,
}

impl Modeled for TexturedVertex {
    type Model = GTVertex;

    open spec fn vertex_model(&self) -> GTVertex {
        GTVertex {
            position: (self.position.0@, self.position.1@, self.position.2@),
            normal: (self.normal.0@, self.normal.1@, self.normal.2@),
            texture: (self.texture.0@, self.texture.1@, self.texture.2@),
        }
    }
}

/// The `(position, normal, texture)` combination of each reference of a
/// fully attributed triangle; other polygons contribute nothing.
pub open spec fn ptn_keys_of(p: GPolygon) -> Seq<(usize, usize, usize)> {
    match p {
        GPolygon::PTN(v) => if v.len() == 3 {
            seq![
                (v[0].0, v[0].2, v[0].1),
                (v[1].0, v[1].2, v[1].1),
                (v[2].0, v[2].2, v[2].1),
            ]
        } else {
            Seq::empty()
        },
        _ => Seq::empty(),
    }
}

/// The `(position, normal, texture)` combinations referenced by the
/// polygons, in order.
pub open spec fn ptn_refs(polys: Seq<GPolygon>) -> Seq<(usize, usize, usize)>
    decreases polys.len(),
{
    if polys.len() == 0 {
        Seq::empty()
    } else {
        ptn_refs(polys.drop_last()) + ptn_keys_of(polys.last())
    }
}

/// The vertex materialized for a `(position, normal, texture)` combination.
pub open spec fn gtvertex_of(
    positions: Seq<G4>,
    normals: Seq<G3>,
    tex_coords: Seq<G3>,
    p: usize,
    n: usize,
    t: usize,
) -> GTVertex {
    GTVertex {
        position: g4_position(positions[p as int]),
        normal: normals[n as int],
        texture: tex_coords[t as int],
    }
}

/// Three cache steps, one per reference of a fully attributed triangle.
pub open spec fn textured_chain3(
    positions: Seq<G4>,
    normals: Seq<G3>,
    tex_coords: Seq<G3>,
    st: GCache<GTVertex, (usize, usize, usize)>,
    k0: (usize, usize, usize),
    k1: (usize, usize, usize),
    k2: (usize, usize, usize),
    maxv: int,
) -> Result<GCache<GTVertex, (usize, usize, usize)>, ErrModel> {
    match cache_step(st, k0, gtvertex_of(positions, normals, tex_coords, k0.0, k0.1, k0.2), maxv) {
        Err(e) => Err(e),
        Ok(s1) => match cache_step(
            s1,
            k1,
            gtvertex_of(positions, normals, tex_coords, k1.0, k1.1, k1.2),
            maxv,
        ) {
            Err(e) => Err(e),
            Ok(s2) => cache_step(
                s2,
                k2,
                gtvertex_of(positions, normals, tex_coords, k2.0, k2.1, k2.2),
                maxv,
            ),
        },
    }
}

/// What one polygon does to the fully attributed build state.
pub open spec fn textured_poly_step(
    positions: Seq<G4>,
    normals: Seq<G3>,
    tex_coords: Seq<G3>,
    st: GCache<GTVertex, (usize, usize, usize)>,
    poly: GPolygon,
    maxv: int,
) -> Result<GCache<GTVertex, (usize, usize, usize)>, ErrModel> {
    match poly {
        GPolygon::P(_) => Err(ErrModel::Load(LoadErrorKind::InsufficientData)),
        GPolygon::PT(_) => Err(ErrModel::Load(LoadErrorKind::InsufficientData)),
        GPolygon::PN(_) => Err(ErrModel::Load(LoadErrorKind::InsufficientData)),
        GPolygon::PTN(v) => if v.len() == 3 {
            textured_chain3(
                positions,
                normals,
                tex_coords,
                st,
                (v[0].0, v[0].2, v[0].1),
                (v[1].0, v[1].2, v[1].1),
                (v[2].0, v[2].2, v[2].1),
                maxv,
            )
        } else {
            Err(ErrModel::Load(LoadErrorKind::UntriangulatedModel))
        },
    }
}

/// The fully attributed build state after the given polygons.
pub open spec fn textured_fold(
    positions: Seq<G4>,
    normals: Seq<G3>,
    tex_coords: Seq<G3>,
    polys: Seq<GPolygon>,
    maxv: int,
) -> Result<GCache<GTVertex, (usize, usize, usize)>, ErrModel>
    decreases polys.len(),
{
    if polys.len() == 0 {
        Ok(GCache { vb: Seq::empty(), keys: Seq::empty(), ib: Seq::empty() })
    } else {
        match textured_fold(positions, normals, tex_coords, polys.drop_last(), maxv) {
            Err(e) => Err(e),
            Ok(st) => textured_poly_step(positions, normals, tex_coords, st, polys.last(), maxv),
        }
    }
}

/// A failed prefix decides the whole fold.
proof fn lemma_textured_fold_prefix_err(
    positions: Seq<G4>,
    normals: Seq<G3>,
    tex_coords: Seq<G3>,
    polys: Seq<GPolygon>,
    maxv: int,
    i: int,
)
    requires
        0 <= i <= polys.len(),
        textured_fold(positions, normals, tex_coords, polys.take(i), maxv) is Err,
    ensures
        textured_fold(positions, normals, tex_coords, polys, maxv) == textured_fold(
            positions,
            normals,
            tex_coords,
            polys.take(i),
            maxv,
        ),
    decreases polys.len() - i,
{
    if i == polys.len() {
        assert(polys.take(i) =~= polys);
    } else {
        assert(polys.take(i + 1).drop_last() =~= polys.take(i));
        lemma_textured_fold_prefix_err(positions, normals, tex_coords, polys, maxv, i + 1);
    }
}

/// A successful fully attributed build is consistent with its references.
pub proof fn lemma_textured_fold_inv(
    positions: Seq<G4>,
    normals: Seq<G3>,
    tex_coords: Seq<G3>,
    polys: Seq<GPolygon>,
    maxv: int,
)
    requires
        textured_fold(positions, normals, tex_coords, polys, maxv) is Ok,
        maxv >= 0,
    ensures
        cache_inv(textured_fold(positions, normals, tex_coords, polys, maxv)->Ok_0, ptn_refs(polys)),
        textured_fold(positions, normals, tex_coords, polys, maxv)->Ok_0.keys.len() <= maxv + 1,
        ptn_refs(polys).len() == 3 * polys.len(),
    decreases polys.len(),
{
    if polys.len() == 0 {
        let st = textured_fold(positions, normals, tex_coords, polys, maxv)->Ok_0;
        assert(st.keys =~= dedup_first(ptn_refs(polys)));
    } else {
        lemma_textured_fold_inv(positions, normals, tex_coords, polys.drop_last(), maxv);
        let st = textured_fold(positions, normals, tex_coords, polys.drop_last(), maxv)->Ok_0;
        let refs = ptn_refs(polys.drop_last());
        let poly = polys.last();
        let ks = ptn_keys_of(poly);
        assert(ks.len() == 3);
        let k0 = ks[0];
        let k1 = ks[1];
        let k2 = ks[2];
        let v0 = gtvertex_of(positions, normals, tex_coords, k0.0, k0.1, k0.2);
        let v1 = gtvertex_of(positions, normals, tex_coords, k1.0, k1.1, k1.2);
        let v2 = gtvertex_of(positions, normals, tex_coords, k2.0, k2.1, k2.2);
        let s1 = cache_step(st, k0, v0, maxv)->Ok_0;
        let s2 = cache_step(s1, k1, v1, maxv)->Ok_0;
        lemma_cache_step_inv(st, k0, v0, maxv, refs);
        lemma_cache_step_inv(s1, k1, v1, maxv, refs.push(k0));
        lemma_cache_step_inv(s2, k2, v2, maxv, refs.push(k0).push(k1));
        assert(ptn_refs(polys) =~= refs.push(k0).push(k1).push(k2));
    }
}

/// Finds a `(position, normal, texture)` combination among the cache keys.
fn find_triple(keys: &Vec<(usize, usize, usize)>, p: usize, n: usize, t: usize) -> (r: usize)
    ensures
        r == find_in(keys@, (p, n, t)),
{
    let mut i: usize = 0;
    while i < keys.len()
        invariant
            i <= keys@.len(),
            forall|j: int| 0 <= j < i ==> keys@[j] != (p, n, t),
        decreases keys@.len() - i,
    {
        if keys[i].0 == p && keys[i].1 == n && keys[i].2 == t {
            proof {
                lemma_find_in_unique(keys@, (p, n, t), i as int);
            }
            return i;
        }
        i += 1;
    }
    proof {
        lemma_find_in_unique(keys@, (p, n, t), keys@.len() as int);
    }
    i
}

/// The model of a fully attributed build state.
pub open spec fn textured_cache_model<I: VertexIndex>(
    vb: Seq<TexturedVertex>,
    keys: Seq<(usize, usize, usize)>,
    ib: Seq<I>,
) -> GCache<GTVertex, (usize, usize, usize)> {
    GCache {
        vb: vb.map(|i: int, x: TexturedVertex| x.vertex_model()),
        keys,
        ib: ib.map(|i: int, x: I| x.idx_int()),
    }
}

/// Emits one fully attributed reference: reuses a cached slot or
/// materializes the vertex.
fn textured_emit<I: VertexIndex>(
    vertices: &Vec<(String, String, String, String)>,
    normals: &Vec<(String, String, String)>,
    tex_coords: &Vec<(String, String, String)>,
    vb: &mut Vec<TexturedVertex>,
    keys: &mut Vec<(usize, usize, usize)>,
    ib: &mut Vec<I>,
    p: usize,
    n: usize,
    t: usize,
) -> (r: Result<(), ObjError>)
    requires
        p < vertices@.len(),
        n < normals@.len(),
        t < tex_coords@.len(),
        old(vb)@.len() == old(keys)@.len(),
        old(keys)@.len() <= I::max_index() + 1,
    ensures
        match r {
            Ok(()) => {
                &&& cache_step(
                    textured_cache_model(old(vb)@, old(keys)@, old(ib)@),
                    (p, n, t),
                    gtvertex_of(
                        crate::raw::object::f4s_model(vertices@),
                        crate::raw::object::f3s_model(normals@),
                        crate::raw::object::f3s_model(tex_coords@),
                        p,
                        n,
                        t,
                    ),
                    I::max_index(),
                ) == Ok::<GCache<GTVertex, (usize, usize, usize)>, ErrModel>(
                    textured_cache_model(final(vb)@, final(keys)@, final(ib)@),
                )
                &&& final(vb)@.len() == final(keys)@.len()
                &&& final(keys)@.len() <= I::max_index() + 1
            },
            Err(e) => cache_step(
                textured_cache_model(old(vb)@, old(keys)@, old(ib)@),
                (p, n, t),
                gtvertex_of(
                    crate::raw::object::f4s_model(vertices@),
                    crate::raw::object::f3s_model(normals@),
                    crate::raw::object::f3s_model(tex_coords@),
                    p,
                    n,
                    t,
                ),
                I::max_index(),
            ) == Err::<GCache<GTVertex, (usize, usize, usize)>, ErrModel>(err_model(e)),
        },
{
    let j = find_triple(keys, p, n, t);
    if j < keys.len() {
        let ix = match I::from_count(j) {
            Some(x) => x,
            None => {
                proof {
                    assert(false);
                }
                vstd::pervasive::unreached()
            },
        };
        let ghost ib0 = ib@;
        ib.push(ix);
        proof {
            let lhs = ib@.map(|i: int, x: I| x.idx_int());
            let rhs = ib0.map(|i: int, x: I| x.idx_int()).push(j as int);
            assert forall|k: int| 0 <= k < lhs.len() implies lhs[k] == rhs[k] by {
                if k < ib0.len() {
                    assert(ib@[k] == ib0[k]);
                    assert(ib0.map(|i: int, x: I| x.idx_int())[k] == ib0[k].idx_int());
                } else {
                    assert(ib@[k] == ix);
                }
            }
            assert(lhs =~= rhs);
        }
        Ok(())
    } else {
        let ix = match I::from_count(vb.len()) {
            Some(x) => x,
            None => {
                return Err(
                    ObjError::Load(
                        LoadError::new(
                            LoadErrorKind::IndexOutOfRange,
                            "Unable to convert the index from usize",
                        ),
                    ),
                );
            },
        };
        let pv = &vertices[p];
        let nv = &normals[n];
        let tv = &tex_coords[t];
        let vert = TexturedVertex {
            position: (pv.0.clone(), pv.1.clone(), pv.2.clone()),
            normal: (nv.0.clone(), nv.1.clone(), nv.2.clone()),
            texture: (tv.0.clone(), tv.1.clone(), tv.2.clone()),
        };
        let ghost vb0 = vb@;
        let ghost ib0 = ib@;
        vb.push(vert);
        keys.push((p, n, t));
        ib.push(ix);
        proof {
            assert(crate::raw::object::f4s_model(vertices@)[p as int]
                == crate::raw::object::f4_model(vertices@[p as int]));
            assert(crate::raw::object::f3s_model(normals@)[n as int]
                == crate::raw::object::f3_model(normals@[n as int]));
            assert(crate::raw::object::f3s_model(tex_coords@)[t as int]
                == crate::raw::object::f3_model(tex_coords@[t as int]));
            let gv = gtvertex_of(
                crate::raw::object::f4s_model(vertices@),
                crate::raw::object::f3s_model(normals@),
                crate::raw::object::f3s_model(tex_coords@),
                p,
                n,
                t,
            );
            assert(vert.vertex_model() == gv);
            let lhsv = vb@.map(|i: int, x: TexturedVertex| x.vertex_model());
            let rhsv = vb0.map(|i: int, x: TexturedVertex| x.vertex_model()).push(gv);
            assert forall|k: int| 0 <= k < lhsv.len() implies lhsv[k] == rhsv[k] by {
                if k < vb0.len() {
                    assert(vb@[k] == vb0[k]);
                    assert(vb0.map(|i: int, x: TexturedVertex| x.vertex_model())[k] == vb0[
                        k
                    ].vertex_model());
                } else {
                    assert(vb@[k] == vert);
                }
            }
            assert(lhsv =~= rhsv);
            let lhsi = ib@.map(|i: int, x: I| x.idx_int());
            let rhsi = ib0.map(|i: int, x: I| x.idx_int()).push(vb0.len() as int);
            assert forall|k: int| 0 <= k < lhsi.len() implies lhsi[k] == rhsi[k] by {
                if k < ib0.len() {
                    assert(ib@[k] == ib0[k]);
                    assert(ib0.map(|i: int, x: I| x.idx_int())[k] == ib0[k].idx_int());
                } else {
                    assert(ib@[k] == ix);
                }
            }
            assert(lhsi =~= rhsi);
        }
        Ok(())
    }
}

impl<I: VertexIndex> FromRawVertex<I> for TexturedVertex {
    open spec fn process_spec(
        positions: Seq<G4>,
        normals: Seq<G3>,
        tex_coords: Seq<G3>,
        polygons: Seq<GPolygon>,
    ) -> Result<(Seq<GTVertex>, Seq<int>), ErrModel> {
        match textured_fold(positions, normals, tex_coords, polygons, I::max_index()) {
            Err(e) => Err(e),
            Ok(st) => Ok((st.vb, st.ib)),
        }
    }

    fn process(
        vertices: Vec<(String, String, String, String)>,
        normals: Vec<(String, String, String)>,
        tex_coords: Vec<(String, String, String)>,
        polygons: Vec<Polygon>,
    ) -> (r: ObjResult<(Vec<TexturedVertex>, Vec<I>)>) {
        let ghost pm = crate::raw::object::polys_model(polygons@);
        let ghost psm = crate::raw::object::f4s_model(vertices@);
        let ghost nsm = crate::raw::object::f3s_model(normals@);
        let ghost tsm = crate::raw::object::f3s_model(tex_coords@);
        let mut vb: Vec<TexturedVertex> = Vec::new();
        let mut keys: Vec<(usize, usize, usize)> = Vec::new();
        let mut ib: Vec<I> = Vec::new();
        let mut i: usize = 0;
        proof {
            assert(pm.take(0) =~= Seq::<GPolygon>::empty());
            let m = textured_cache_model(vb@, keys@, ib@);
            assert(m.vb =~= Seq::<GTVertex>::empty());
            assert(m.keys =~= Seq::<(usize, usize, usize)>::empty());
            assert(m.ib =~= Seq::<int>::empty());
        }
        while i < polygons.len()
            invariant
                i <= polygons@.len(),
                pm == crate::raw::object::polys_model(polygons@),
                psm == crate::raw::object::f4s_model(vertices@),
                nsm == crate::raw::object::f3s_model(normals@),
                tsm == crate::raw::object::f3s_model(tex_coords@),
                crate::raw::object::polys_in_bounds(
                    vertices@.len() as int,
                    tex_coords@.len() as int,
                    normals@.len() as int,
                    pm,
                ),
                textured_fold(psm, nsm, tsm, pm.take(i as int), I::max_index()) == Ok::<
                    GCache<GTVertex, (usize, usize, usize)>,
                    ErrModel,
                >(textured_cache_model(vb@, keys@, ib@)),
            decreases polygons@.len() - i,
        {
            proof {
                assert(pm[i as int] == crate::raw::object::poly_model(polygons@[i as int]));
                assert(pm.take(i + 1 as int).drop_last() =~= pm.take(i as int));
                assert(pm.take(i + 1 as int).last() == pm[i as int]);
                assert(crate::raw::object::gpoly_in_bounds(
                    pm[i as int],
                    vertices@.len() as int,
                    tex_coords@.len() as int,
                    normals@.len() as int,
                ));
                I::max_index_nonneg();
                lemma_textured_fold_inv(psm, nsm, tsm, pm.take(i as int), I::max_index());
                assert(psm.len() == vertices@.len());
                assert(nsm.len() == normals@.len());
                assert(tsm.len() == tex_coords@.len());
            }
            let refs: ((usize, usize, usize), (usize, usize, usize), (usize, usize, usize)) =
                match &polygons[i] {
                Polygon::P(_) => {
                    proof {
                        lemma_textured_fold_prefix_err(psm, nsm, tsm, pm, I::max_index(), i + 1);
                    }
                    return Err(
                        ObjError::Load(
                            LoadError::new(
                                LoadErrorKind::InsufficientData,
                                "Tried to extract normal and texture data which are not contained in the model",
                            ),
                        ),
                    );
                },
                Polygon::PT(_) => {
                    proof {
                        lemma_textured_fold_prefix_err(psm, nsm, tsm, pm, I::max_index(), i + 1);
                    }
                    return Err(
                        ObjError::Load(
                            LoadError::new(
                                LoadErrorKind::InsufficientData,
                                "Tried to extract normal data which are not contained in the model",
                            ),
                        ),
                    );
                },
                Polygon::PN(_) => {
                    proof {
                        lemma_textured_fold_prefix_err(psm, nsm, tsm, pm, I::max_index(), i + 1);
                    }
                    return Err(
                        ObjError::Load(
                            LoadError::new(
                                LoadErrorKind::InsufficientData,
                                "Tried to extract texture data which are not contained in the model",
                            ),
                        ),
                    );
                },
                Polygon::PTN(v) => {
                    if v.len() != 3 {
                        proof {
                            lemma_textured_fold_prefix_err(
                                psm,
                                nsm,
                                tsm,
                                pm,
                                I::max_index(),
                                i + 1,
                            );
                        }
                        return Err(
                            ObjError::Load(
                                LoadError::new(
                                    LoadErrorKind::UntriangulatedModel,
                                    "Model should be triangulated first to be loaded properly",
                                ),
                            ),
                        );
                    }
                    (
                        (v[0].0, v[0].2, v[0].1),
                        (v[1].0, v[1].2, v[1].1),
                        (v[2].0, v[2].2, v[2].1),
                    )
                },
            };
            match textured_emit(
                &vertices,
                &normals,
                &tex_coords,
                &mut vb,
                &mut keys,
                &mut ib,
                refs.0.0,
                refs.0.1,
                refs.0.2,
            ) {
                Ok(()) => {},
                Err(e) => {
                    proof {
                        lemma_textured_fold_prefix_err(psm, nsm, tsm, pm, I::max_index(), i + 1);
                    }
                    return Err(e);
                },
            }
            match textured_emit(
                &vertices,
                &normals,
                &tex_coords,
                &mut vb,
                &mut keys,
                &mut ib,
                refs.1.0,
                refs.1.1,
                refs.1.2,
            ) {
                Ok(()) => {},
                Err(e) => {
                    proof {
                        lemma_textured_fold_prefix_err(psm, nsm, tsm, pm, I::max_index(), i + 1);
                    }
                    return Err(e);
                },
            }
            match textured_emit(
                &vertices,
                &normals,
                &tex_coords,
                &mut vb,
                &mut keys,
                &mut ib,
                refs.2.0,
                refs.2.1,
                refs.2.2,
            ) {
                Ok(()) => {},
                Err(e) => {
                    proof {
                        lemma_textured_fold_prefix_err(psm, nsm, tsm, pm, I::max_index(), i + 1);
                    }
                    return Err(e);
                },
            }
            i += 1;
        }
        proof {
            assert(pm.take(polygons@.len() as int) =~= pm);
            I::max_index_nonneg();
            lemma_textured_fold_inv(psm, nsm, tsm, pm, I::max_index());
            let st = textured_cache_model(vb@, keys@, ib@);
            assert(st.ib.len() == ib@.len());
            assert(st.vb.len() == vb@.len());
            assert forall|k: int|
                0 <= k < ib@.len() implies 0 <= (#[trigger] ib@[k]).idx_int() < vb@.len() by {
                assert(st.ib[k] == ib@[k].idx_int());
                assert(0 <= st.ib[k] < st.keys.len());
            }
            assert(ptn_refs(pm).len() == 3 * polygons@.len());
        }
        Ok((vb, ib))
    }
}

/// Two references to one position/normal/texture combination share one
/// vertex-buffer slot, distinct combinations get distinct slots, and the
/// buffer holds exactly one vertex per distinct referenced combination.
pub proof fn lemma_textured_dedup<I: VertexIndex>(
    positions: Seq<G4>,
    normals: Seq<G3>,
    tex_coords: Seq<G3>,
    polys: Seq<GPolygon>,
)
    requires
        <TexturedVertex as FromRawVertex<I>>::process_spec(
            positions,
            normals,
            tex_coords,
            polys,
        ) is Ok,
        I::max_index() >= 0,
    ensures
        ({
            let b = <TexturedVertex as FromRawVertex<I>>::process_spec(
                positions,
                normals,
                tex_coords,
                polys,
            )->Ok_0;
            let refs = ptn_refs(polys);
            &&& b.0.len() == dedup_first(refs).len()
            &&& b.1.len() == refs.len()
            &&& forall|j: int, k: int|
                0 <= j < refs.len() && 0 <= k < refs.len() ==> (b.1[j] == b.1[k] <==> refs[j]
                    == refs[k])
        }),
{
    lemma_textured_fold_inv(positions, normals, tex_coords, polys, I::max_index());
    let st = textured_fold(positions, normals, tex_coords, polys, I::max_index())->Ok_0;
    let refs = ptn_refs(polys);
    lemma_dedup_first_distinct(refs);
    assert forall|j: int, k: int|
        0 <= j < refs.len() && 0 <= k < refs.len() implies (st.ib[j] == st.ib[k] <==> refs[j]
        == refs[k]) by {
        assert(st.keys[st.ib[j]] == refs[j]);
        assert(st.keys[st.ib[k]] == refs[k]);
    }
}

/// A 3D model loaded from a Wavefront OBJ text: its name and its vertex
/// and index buffers.
#[derive(Debug, PartialEq)]
pub struct Obj<V = Vertex, I = u16> {
    /// The object's name.
    pub name: Option<String>,
    /// The vertex buffer.
    pub vertices: Vec<V>,
    /// The index buffer.
    pub indices: Vec<I>,
}

impl<V: FromRawVertex<I>, I: VertexIndex> Obj<V, I> {
    /// Builds an `Obj` from a parsed document.
    ///
    /// The document's element references must lie within its attribute
    /// arrays, as `parse_obj` leaves them.
    pub fn new(raw: RawObj) -> (r: ObjResult<Obj<V, I>>)
        requires
            gdoc_wf(raw.model()),
        ensures
            match r {
                Ok(o) => {
                    &&& V::process_spec(
                        raw.model().positions,
                        raw.model().normals,
                        raw.model().tex_coords,
                        raw.model().polygons,
                    ) == Ok::<(Seq<V::Model>, Seq<int>), ErrModel>(
                        (
                            o.vertices@.map(|i: int, x: V| x.vertex_model()),
                            o.indices@.map(|i: int, x: I| x.idx_int()),
                        ),
                    )
                    &&& crate::raw::material::opt_str_model(o.name) == raw.model().name
                    &&& forall|k: int|
                        0 <= k < o.indices@.len() ==> 0 <= (#[trigger] o.indices@[k]).idx_int()
                            < o.vertices@.len()
                    &&& o.indices@.len() == 3 * raw.model().polygons.len()
                },
                Err(e) => V::process_spec(
                    raw.model().positions,
                    raw.model().normals,
                    raw.model().tex_coords,
                    raw.model().polygons,
                ) == Err::<(Seq<V::Model>, Seq<int>), ErrModel>(err_model(e)),
            },
    {
        let ghost d = raw.model();
        let RawObj {
            name,
            material_libraries,
            positions,
            tex_coords,
            normals,
            param_vertices,
            points,
            lines,
            polygons,
            groups,
            meshes,
            smoothing_groups,
            merging_groups,
        } = raw;
        proof {
            assert forall|i: int|
                0 <= i < d.polygons.len() implies crate::raw::object::gpoly_in_bounds(
                #[trigger] d.polygons[i],
                d.positions.len() as int,
                d.tex_coords.len() as int,
                d.normals.len() as int,
            ) by {
                crate::raw::object::lemma_gpoly_wf_in_bounds(
                    d.polygons[i],
                    d.positions.len() as int,
                    d.tex_coords.len() as int,
                    d.normals.len() as int,
                );
            }
        }
        match V::process(positions, normals, tex_coords, polygons) {
            Ok(b) => {
                let (vertices, indices) = b;
                Ok(Obj { name, vertices, indices })
            },
            Err(e) => Err(e),
        }
    }
}

/// Loads a Wavefront OBJ text into a deduplicated vertex buffer and an
/// index buffer of the chosen width.
///
/// For a source whose polygons the chosen layout accepts, the index buffer
/// holds exactly three indices per polygon, each addressing a vertex of
/// the vertex buffer.
pub fn load_obj<V: FromRawVertex<I>, I: VertexIndex>(input: &str) -> (r: ObjResult<Obj<V, I>>)
    requires
        lex_spec(input@) matches Ok(stmts) ==> all_supported(stmts),
    ensures
        match r {
            Ok(o) => parse_obj_spec(input@) matches Ok(d) && {
                &&& V::process_spec(d.positions, d.normals, d.tex_coords, d.polygons) == Ok::<
                    (Seq<V::Model>, Seq<int>),
                    ErrModel,
                >(
                    (
                        o.vertices@.map(|i: int, x: V| x.vertex_model()),
                        o.indices@.map(|i: int, x: I| x.idx_int()),
                    ),
                )
                &&& crate::raw::material::opt_str_model(o.name) == d.name
                &&& forall|k: int|
                    0 <= k < o.indices@.len() ==> 0 <= (#[trigger] o.indices@[k]).idx_int()
                        < o.vertices@.len()
                &&& o.indices@.len() == 3 * d.polygons.len()
            },
            Err(e) => parse_obj_spec(input@) == Err::<crate::raw::object::GDoc, ErrModel>(
                err_model(e),
            ) || (parse_obj_spec(input@) matches Ok(d) && V::process_spec(
                d.positions,
                d.normals,
                d.tex_coords,
                d.polygons,
            ) == Err::<(Seq<V::Model>, Seq<int>), ErrModel>(err_model(e))),
        },
{
    let raw = match crate::raw::object::parse_obj(input) {
        Ok(raw) => raw,
        Err(e) => {
            return Err(e);
        },
    };
    Obj::new(raw)
}

} // verus!
