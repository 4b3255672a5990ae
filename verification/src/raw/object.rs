//! Parses the OBJ format, which stores 3D mesh data.

use crate::error::{ErrModel, IntErrorKind, LoadError, LoadErrorKind, ObjError, ObjResult, err_model};
use crate::raw::lexer::{GStmt, Statement, lex, lex_spec, stmts_model};
use crate::raw::util::{
    all_float_tokens, parse_args, parse_isize, parse_isize_spec, parse_usize, parse_usize_spec,
};
use crate::text::{
    chars_eq_str, chars_to_string, copy_range, find_char, first_where, lemma_first_where,
    lemma_first_where_unique, lines_model, strs_model, to_chars,
};
use vstd::prelude::*;

verus! {

/// Sentinel for the open end of a range still being built.
pub const UNDEFINED: usize = usize::MAX;

/// The `Point` type, which stores the index of a position vector.
pub type Point = usize;

/// The `Line` element type.
#[derive(Clone, Debug, PartialEq, Eq)]
pub enum Line {
    /// A polyline holding only the position index of each vertex.
    P(Vec<usize>),
    /// A polyline holding position and texture-coordinate indices.
    PT(Vec<(usize, usize)>),
}

/// The `Polygon` element type.
#[derive(Clone, Debug, PartialEq, Eq)]
pub enum Polygon {
    /// A polygon holding only the position index of each vertex.
    P(Vec<usize>),
    /// A polygon holding position and texture-coordinate indices.
    PT(Vec<(usize, usize)>),
    /// A polygon holding position and normal indices.
    PN(Vec<(usize, usize)>),
    /// A polygon holding position, texture-coordinate and normal indices.
    PTN(Vec<(usize, usize, usize)>),
}

/// The model of a `Line`.
pub enum GLine {
    /// A polyline holding only position indices.
    P(Seq<usize>),
    /// A polyline holding position and texture-coordinate indices.
    PT(Seq<(usize, usize)>),
}

/// The model of a `Polygon`.
pub enum GPolygon {
    /// A polygon holding only position indices.
    P(Seq<usize>),
    /// A polygon holding position and texture-coordinate indices.
    PT(Seq<(usize, usize)>),
    /// A polygon holding position and normal indices.
    PN(Seq<(usize, usize)>),
    /// A polygon holding position, texture-coordinate and normal indices.
    PTN(Seq<(usize, usize, usize)>),
}

/// The model of a `Line`.
pub open spec fn line_model(l: Line) -> GLine {
    match l {
        Line::P(v) => GLine::P(v@),
        Line::PT(v) => GLine::PT(v@),
    }
}

/// The model of a `Polygon`.
pub open spec fn poly_model(p: Polygon) -> GPolygon {
    match p {
        Polygon::P(v) => GPolygon::P(v@),
        Polygon::PT(v) => GPolygon::PT(v@),
        Polygon::PN(v) => GPolygon::PN(v@),
        Polygon::PTN(v) => GPolygon::PTN(v@),
    }
}

/// The models of a sequence of lines.
pub open spec fn line_elems_model(v: Seq<Line>) -> Seq<GLine> {
    v.map(|i: int, l: Line| line_model(l))
}

/// The models of a sequence of polygons.
pub open spec fn polys_model(v: Seq<Polygon>) -> Seq<GPolygon> {
    v.map(|i: int, p: Polygon| poly_model(p))
}

/// A struct which represents a `[start, end)` range.
#[derive(Clone, Copy, Debug, PartialEq, Eq, Structural)]
pub struct Range {
    /// The lower bound of the range (inclusive).
    pub start: usize,
    /// The upper bound of the range (exclusive).
    pub end: usize,
}

/// A group, holding ranges of points, lines and polygons.
#[derive(Clone, Debug, PartialEq)]
pub struct Group {
    /// Ranges over the point list.
    pub points: Vec<Range>,
    /// Ranges over the line list.
    pub lines: Vec<Range>,
    /// Ranges over the polygon list.
    pub polygons: Vec<Range>,
}

/// The model of a `Group`.
pub struct GGroup {
    /// Ranges over the point list.
    pub points: Seq<Range>,
    /// Ranges over the line list.
    pub lines: Seq<Range>,
    /// Ranges over the polygon list.
    pub polygons: Seq<Range>,
}

/// The model of a `Group`.
pub open spec fn group_model(g: Group) -> GGroup {
    GGroup { points: g.points@, lines: g.lines@, polygons: g.polygons@ }
}

/// The group without any ranges.
pub open spec fn ggroup_new() -> GGroup {
    GGroup { points: Seq::empty(), lines: Seq::empty(), polygons: Seq::empty() }
}

/// Whether the group holds no range at all.
pub open spec fn ggroup_is_empty(g: GGroup) -> bool {
    g.points.len() == 0 && g.lines.len() == 0 && g.polygons.len() == 0
}

/// Opens a new range on each of the three lists, starting at the current
/// element counts.
pub open spec fn group_open(g: GGroup, count: (usize, usize, usize)) -> GGroup {
    GGroup {
        points: g.points.push(Range { start: count.0, end: UNDEFINED }),
        lines: g.lines.push(Range { start: count.1, end: UNDEFINED }),
        polygons: g.polygons.push(Range { start: count.2, end: UNDEFINED }),
    }
}

/// Closes the last range at `end`, or drops it if it would be empty.
pub open spec fn ranges_close(rs: Seq<Range>, end: usize) -> Seq<Range> {
    if rs.len() == 0 {
        rs
    } else if rs.last().start == end {
        rs.drop_last()
    } else {
        rs.drop_last().push(Range { start: rs.last().start, end })
    }
}

/// Closes the open range of each list at the current element counts.
pub open spec fn group_close(g: GGroup, count: (usize, usize, usize)) -> GGroup {
    GGroup {
        points: ranges_close(g.points, count.0),
        lines: ranges_close(g.lines, count.1),
        polygons: ranges_close(g.polygons, count.2),
    }
}

/// Fully closed ranges: nonempty, strictly increasing, non-overlapping,
/// and bounded by `bound`.
pub open spec fn ranges_closed_wf(rs: Seq<Range>, bound: usize) -> bool {
    &&& forall|i: int| 0 <= i < rs.len() ==> rs[i].start < #[trigger] rs[i].end
    &&& forall|i: int| 0 <= i < rs.len() - 1 ==> #[trigger] rs[i].end <= rs[i + 1].start
    &&& rs.len() > 0 ==> rs.last().end <= bound
}

/// Closed ranges followed by one open range whose start is at most `count`.
pub open spec fn ranges_open_wf(rs: Seq<Range>, count: usize) -> bool {
    &&& rs.len() > 0
    &&& rs.last().end == UNDEFINED
    &&& rs.last().start <= count
    &&& ranges_closed_wf(rs.drop_last(), rs.last().start)
}

/// A fully closed group at element counts `count`.
pub open spec fn ggroup_closed_wf(g: GGroup, count: (usize, usize, usize)) -> bool {
    ranges_closed_wf(g.points, count.0) && ranges_closed_wf(g.lines, count.1) && ranges_closed_wf(
        g.polygons,
        count.2,
    )
}

/// A group whose three lists each end in an open range.
pub open spec fn ggroup_open_wf(g: GGroup, count: (usize, usize, usize)) -> bool {
    ranges_open_wf(g.points, count.0) && ranges_open_wf(g.lines, count.1) && ranges_open_wf(
        g.polygons,
        count.2,
    )
}

/// Componentwise order on element counts.
pub open spec fn count_le(a: (usize, usize, usize), b: (usize, usize, usize)) -> bool {
    a.0 <= b.0 && a.1 <= b.1 && a.2 <= b.2
}

/// Closed ranges stay well-formed when the bound grows.
proof fn lemma_ranges_closed_wf_mono(rs: Seq<Range>, bound: usize, bound2: usize)
    requires
        ranges_closed_wf(rs, bound),
        bound <= bound2,
    ensures
        ranges_closed_wf(rs, bound2),
{
}

/// Closing an open range list leaves closed well-formed ranges.
proof fn lemma_ranges_close_wf(rs: Seq<Range>, count: usize, end: usize)
    requires
        ranges_open_wf(rs, count),
        count <= end,
    ensures
        ranges_closed_wf(ranges_close(rs, end), end),
{
    let last = rs.last();
    if last.start == end {
        lemma_ranges_closed_wf_mono(rs.drop_last(), last.start, end);
    } else {
        let closed = rs.drop_last().push(Range { start: last.start, end });
        assert(closed.last() == Range { start: last.start, end });
        assert(closed.drop_last() =~= rs.drop_last());
        assert forall|i: int| 0 <= i < closed.len() implies closed[i].start
            < #[trigger] closed[i].end by {
            if i < closed.len() - 1 {
                assert(closed[i] == rs.drop_last()[i]);
            }
        }
        assert forall|i: int| 0 <= i < closed.len() - 1 implies #[trigger] closed[i].end
            <= closed[i + 1].start by {
            if i < closed.len() - 2 {
                assert(closed[i] == rs.drop_last()[i]);
                assert(closed[i + 1] == rs.drop_last()[i + 1]);
            } else {
                assert(closed[i] == rs.drop_last()[i]);
            }
        }
    }
}

/// An opened range list is open well-formed.
proof fn lemma_ranges_open_wf(rs: Seq<Range>, bound: usize, count: usize)
    requires
        ranges_closed_wf(rs, bound),
        bound <= count,
    ensures
        ranges_open_wf(rs.push(Range { start: count, end: UNDEFINED }), count),
{
    let opened = rs.push(Range { start: count, end: UNDEFINED });
    assert(opened.last() == Range { start: count, end: UNDEFINED });
    assert(opened.drop_last() =~= rs);
    lemma_ranges_closed_wf_mono(rs, bound, count);
}

/// An open range list stays well-formed when the counts grow.
proof fn lemma_ranges_open_wf_mono(rs: Seq<Range>, count: usize, count2: usize)
    requires
        ranges_open_wf(rs, count),
        count <= count2,
    ensures
        ranges_open_wf(rs, count2),
{
}

impl Group {
    /// A group with one open range on each list, starting at `count`.
    fn new(count: (usize, usize, usize)) -> (r: Group)
        ensures
            group_model(r) == group_open(ggroup_new(), count),
    {
        let mut ret = Group { points: Vec::new(), lines: Vec::new(), polygons: Vec::new() };
        proof {
            assert(group_model(ret).points =~= ggroup_new().points);
            assert(group_model(ret).lines =~= ggroup_new().lines);
            assert(group_model(ret).polygons =~= ggroup_new().polygons);
        }
        ret.start(count);
        ret
    }

    /// Opens a new range on each list, starting at `count`.
    fn start(&mut self, count: (usize, usize, usize))
        ensures
            group_model(*final(self)) == group_open(group_model(*old(self)), count),
    {
        self.points.push(Range { start: count.0, end: UNDEFINED });
        self.lines.push(Range { start: count.1, end: UNDEFINED });
        self.polygons.push(Range { start: count.2, end: UNDEFINED });
    }

    /// Closes the open range of each list at `count`; `true` if the group
    /// is left without any range.
    fn end(&mut self, count: (usize, usize, usize)) -> (b: bool)
        requires
            old(self).points@.len() > 0,
            old(self).lines@.len() > 0,
            old(self).polygons@.len() > 0,
        ensures
            group_model(*final(self)) == group_close(group_model(*old(self)), count),
            b == ggroup_is_empty(group_model(*final(self))),
    {
        close_ranges(&mut self.points, count.0);
        close_ranges(&mut self.lines, count.1);
        close_ranges(&mut self.polygons, count.2);
        self.points.is_empty() && self.lines.is_empty() && self.polygons.is_empty()
    }
}

/// Closes the last range of `rs` at `end`, dropping it if it is empty.
fn close_ranges(rs: &mut Vec<Range>, end: usize)
    requires
        old(rs)@.len() > 0,
    ensures
        final(rs)@ == ranges_close(old(rs)@, end),
{
    let last = rs.len() - 1;
    let r = rs[last];
    rs.pop();
    if r.start != end {
        rs.push(Range { start: r.start, end });
    }
}

/// The index of `k` among the keys of `m`, or `m.len()` if it is absent.
pub open spec fn find_key<K, V>(m: Seq<(K, V)>, k: K) -> int
    decreases m.len(),
{
    if m.len() == 0 {
        0
    } else if m[0].0 == k {
        0
    } else {
        1 + find_key(m.skip(1), k)
    }
}

/// `find_key` is in bounds, earlier keys differ, and it hits `k` unless it
/// is `m.len()`.
pub proof fn lemma_find_key<K, V>(m: Seq<(K, V)>, k: K)
    ensures
        0 <= find_key(m, k) <= m.len(),
        forall|j: int| 0 <= j < find_key(m, k) ==> (#[trigger] m[j]).0 != k,
        find_key(m, k) < m.len() ==> m[find_key(m, k)].0 == k,
    decreases m.len(),
{
    if m.len() == 0 {
    } else if m[0].0 == k {
    } else {
        let f = find_key(m, k);
        lemma_find_key(m.skip(1), k);
        assert forall|j: int| 0 <= j < f implies (#[trigger] m[j]).0 != k by {
            if j > 0 {
                assert(m.skip(1)[j - 1] == m[j]);
            }
        }
        if f < m.len() {
            assert(m.skip(1)[f - 1] == m[f]);
        }
    }
}

/// Any index with `find_key`'s characterization is `find_key`.
pub proof fn lemma_find_key_unique<K, V>(m: Seq<(K, V)>, k: K, i: int)
    requires
        0 <= i <= m.len(),
        forall|j: int| 0 <= j < i ==> (#[trigger] m[j]).0 != k,
        i < m.len() ==> m[i].0 == k,
    ensures
        i == find_key(m, k),
{
    lemma_find_key(m, k);
    let f = find_key(m, k);
    if i < f {
        assert(m[i].0 != k);
        assert(m[i].0 == k);
    }
    if f < i {
        assert(m[f].0 != k);
        assert(m[f].0 == k);
    }
}

/// Whether `m` holds the key `k`.
pub open spec fn has_key<K, V>(m: Seq<(K, V)>, k: K) -> bool {
    find_key(m, k) < m.len()
}

/// The value stored under `k`.
pub open spec fn key_value<K, V>(m: Seq<(K, V)>, k: K) -> V {
    m[find_key(m, k)].1
}

/// Stores `v` under `k`: replaced in place if the key exists, appended
/// otherwise.
pub open spec fn assoc_insert<K, V>(m: Seq<(K, V)>, k: K, v: V) -> Seq<(K, V)> {
    let i = find_key(m, k);
    if i < m.len() {
        m.update(i, (k, v))
    } else {
        m.push((k, v))
    }
}

/// No key occurs twice.
pub open spec fn keys_distinct<K, V>(m: Seq<(K, V)>) -> bool {
    forall|i: int, j: int| 0 <= i < j < m.len() ==> (#[trigger] m[i]).0 != (#[trigger] m[j]).0
}

/// The model of a group-building pass: the open group, if any, and the
/// groups collected so far, in first-seen order.
pub struct GBuilder<K> {
    /// The key of the group currently open.
    pub current: Option<K>,
    /// The groups collected so far.
    pub result: Seq<(K, GGroup)>,
}

/// Closes the open group at `count`, dropping it if it has no ranges left.
pub open spec fn gb_close_current<K>(b: GBuilder<K>, count: (usize, usize, usize)) -> GBuilder<K> {
    match b.current {
        None => b,
        Some(cur) => {
            let i = find_key(b.result, cur);
            let closed = group_close(b.result[i].1, count);
            let result = if ggroup_is_empty(closed) {
                b.result.remove(i)
            } else {
                b.result.update(i, (cur, closed))
            };
            GBuilder { current: None, result }
        },
    }
}

/// Starts the group `k` at `count`: a repeated start is a no-op; otherwise
/// the open group is closed first, and `k` is resumed or created.
pub open spec fn gb_start<K>(b: GBuilder<K>, k: K, count: (usize, usize, usize)) -> GBuilder<K> {
    if b.current == Some(k) {
        b
    } else {
        let b1 = gb_close_current(b, count);
        let i = find_key(b1.result, k);
        let result = if i < b1.result.len() {
            b1.result.update(i, (k, group_open(b1.result[i].1, count)))
        } else {
            b1.result.push((k, group_open(ggroup_new(), count)))
        };
        GBuilder { current: Some(k), result }
    }
}

/// Ends the open group, if any, at `count`.
pub open spec fn gb_end<K>(b: GBuilder<K>, count: (usize, usize, usize)) -> GBuilder<K> {
    gb_close_current(b, count)
}

/// The builder's groups are well-formed at element counts `count`: every
/// key occurs once, the open group ends in open ranges, and every other
/// group is fully closed and holds at least one range.
pub open spec fn gbuilder_wf<K>(b: GBuilder<K>, count: (usize, usize, usize)) -> bool {
    &&& keys_distinct(b.result)
    &&& forall|i: int|
        0 <= i < b.result.len() && b.current != Some((#[trigger] b.result[i]).0)
            ==> ggroup_closed_wf(b.result[i].1, count) && !ggroup_is_empty(b.result[i].1)
    &&& match b.current {
        None => true,
        Some(k) => has_key(b.result, k) && ggroup_open_wf(key_value(b.result, k), count),
    }
}

/// Counts below the sentinel keep a well-formed builder well-formed as the
/// counts grow.
proof fn lemma_gbuilder_wf_mono<K>(
    b: GBuilder<K>,
    c: (usize, usize, usize),
    c2: (usize, usize, usize),
)
    requires
        gbuilder_wf(b, c),
        count_le(c, c2),
    ensures
        gbuilder_wf(b, c2),
{
    assert forall|i: int|
        0 <= i < b.result.len() && b.current != Some((#[trigger] b.result[i]).0)
            implies ggroup_closed_wf(b.result[i].1, c2) by {
        let g = b.result[i].1;
        lemma_ranges_closed_wf_mono(g.points, c.0, c2.0);
        lemma_ranges_closed_wf_mono(g.lines, c.1, c2.1);
        lemma_ranges_closed_wf_mono(g.polygons, c.2, c2.2);
    }
    match b.current {
        None => {},
        Some(k) => {
            let g = key_value(b.result, k);
            lemma_ranges_open_wf_mono(g.points, c.0, c2.0);
            lemma_ranges_open_wf_mono(g.lines, c.1, c2.1);
            lemma_ranges_open_wf_mono(g.polygons, c.2, c2.2);
        },
    }
}

/// Closing the open group keeps the builder well-formed.
proof fn lemma_gb_close_current_wf<K>(b: GBuilder<K>, count: (usize, usize, usize))
    requires
        gbuilder_wf(b, count),
    ensures
        gbuilder_wf(gb_close_current(b, count), count),
        gb_close_current(b, count).current is None,
{
    match b.current {
        None => {},
        Some(cur) => {
            lemma_find_key(b.result, cur);
            let i = find_key(b.result, cur);
            let g = b.result[i].1;
            lemma_ranges_close_wf(g.points, count.0, count.0);
            lemma_ranges_close_wf(g.lines, count.1, count.1);
            lemma_ranges_close_wf(g.polygons, count.2, count.2);
            let closed = group_close(g, count);
            let res = gb_close_current(b, count).result;
            if ggroup_is_empty(closed) {
                assert forall|j: int, l: int| 0 <= j < l < res.len() implies (
                #[trigger] res[j]).0 != (#[trigger] res[l]).0 by {
                    let j0 = if j < i {
                        j
                    } else {
                        j + 1
                    };
                    let l0 = if l < i {
                        l
                    } else {
                        l + 1
                    };
                    assert(res[j] == b.result[j0]);
                    assert(res[l] == b.result[l0]);
                }
                assert forall|j: int| 0 <= j < res.len() implies ggroup_closed_wf(
                    (#[trigger] res[j]).1,
                    count,
                ) && !ggroup_is_empty(res[j].1) by {
                    let j0 = if j < i {
                        j
                    } else {
                        j + 1
                    };
                    assert(res[j] == b.result[j0]);
                    assert(b.result[j0].0 != cur);
                }
            } else {
                assert forall|j: int, l: int| 0 <= j < l < res.len() implies (
                #[trigger] res[j]).0 != (#[trigger] res[l]).0 by {
                    assert(res[j].0 == b.result[j].0);
                    assert(res[l].0 == b.result[l].0);
                }
                assert forall|j: int| 0 <= j < res.len() implies ggroup_closed_wf(
                    (#[trigger] res[j]).1,
                    count,
                ) && !ggroup_is_empty(res[j].1) by {
                    if j != i {
                        assert(res[j] == b.result[j]);
                        assert(b.result[j].0 != cur);
                    }
                }
            }
        },
    }
}

/// Starting a group keeps the builder well-formed.
proof fn lemma_gb_start_wf<K>(b: GBuilder<K>, k: K, count: (usize, usize, usize))
    requires
        gbuilder_wf(b, count),
    ensures
        gbuilder_wf(gb_start(b, k, count), count),
{
    if b.current == Some(k) {
    } else {
        lemma_gb_close_current_wf(b, count);
        let b1 = gb_close_current(b, count);
        lemma_find_key(b1.result, k);
        let i = find_key(b1.result, k);
        let out = gb_start(b, k, count);
        if i < b1.result.len() {
            let g = b1.result[i].1;
            assert(ggroup_closed_wf(g, count));
            lemma_ranges_open_wf(g.points, count.0, count.0);
            lemma_ranges_open_wf(g.lines, count.1, count.1);
            lemma_ranges_open_wf(g.polygons, count.2, count.2);
            let res = out.result;
            assert forall|j: int| 0 <= j < res.len() && j != i implies (#[trigger] res[j])
                == b1.result[j] by {}
            assert(res[i].0 == k);
            assert forall|j: int| 0 <= j < i implies (#[trigger] res[j]).0 != k by {
                assert(res[j] == b1.result[j]);
            }
            lemma_find_key_unique(res, k, i);
            assert forall|j: int, l: int| 0 <= j < l < res.len() implies (#[trigger] res[j]).0
                != (#[trigger] res[l]).0 by {
                assert(res[j].0 == b1.result[j].0);
                assert(res[l].0 == b1.result[l].0);
            }
            assert forall|j: int|
                0 <= j < res.len() && out.current != Some((#[trigger] res[j]).0)
                    implies ggroup_closed_wf(res[j].1, count) && !ggroup_is_empty(res[j].1) by {
                assert(res[j] == b1.result[j]);
            }
        } else {
            let res = out.result;
            assert forall|j: int| 0 <= j < b1.result.len() implies (#[trigger] res[j]).0 != k by {
                assert(res[j] == b1.result[j]);
            }
            lemma_find_key_unique(res, k, b1.result.len() as int);
            lemma_ranges_open_wf(Seq::<Range>::empty(), 0, count.0);
            lemma_ranges_open_wf(Seq::<Range>::empty(), 0, count.1);
            lemma_ranges_open_wf(Seq::<Range>::empty(), 0, count.2);
            assert(ggroup_new().points =~= Seq::<Range>::empty());
            assert(ggroup_new().lines =~= Seq::<Range>::empty());
            assert(ggroup_new().polygons =~= Seq::<Range>::empty());
            assert forall|j: int, l: int| 0 <= j < l < res.len() implies (#[trigger] res[j]).0
                != (#[trigger] res[l]).0 by {
                if l < b1.result.len() {
                    assert(res[j] == b1.result[j]);
                    assert(res[l] == b1.result[l]);
                } else {
                    assert(res[j] == b1.result[j]);
                }
            }
            assert forall|j: int|
                0 <= j < res.len() && out.current != Some((#[trigger] res[j]).0)
                    implies ggroup_closed_wf(res[j].1, count) && !ggroup_is_empty(res[j].1) by {
                assert(res[j] == b1.result[j]);
            }
        }
    }
}

/// The groups of a document, keyed by name, in first-seen order.
#[derive(Clone, Debug, PartialEq)]
pub struct GroupMap {
    entries: Vec<(String, Group)>,
}

impl GroupMap {
    /// The map's model: its key/group pairs, in order.
    pub closed spec fn model(&self) -> Seq<(Seq<char>, GGroup)> {
        self.entries@.map(|i: int, e: (String, Group)| (e.0@, group_model(e.1)))
    }

    /// An empty map.
    fn empty() -> (r: GroupMap)
        ensures
            r.model() == Seq::<(Seq<char>, GGroup)>::empty(),
    {
        let r = GroupMap { entries: Vec::new() };
        proof {
            assert(r.model() =~= Seq::<(Seq<char>, GGroup)>::empty());
        }
        r
    }

    /// How many groups the map holds.
    pub fn len(&self) -> (n: usize)
        ensures
            n == self.model().len(),
    {
        self.entries.len()
    }

    /// The index of `name` among the keys, or the map's size if absent.
    fn find(&self, name: &Vec<char>) -> (r: usize)
        ensures
            r == find_key(self.model(), name@),
    {
        let mut i: usize = 0;
        while i < self.entries.len()
            invariant
                i <= self.entries@.len(),
                forall|j: int| 0 <= j < i ==> (#[trigger] self.model()[j]).0 != name@,
            decreases self.entries@.len() - i,
        {
            if chars_eq_str(name, self.entries[i].0.as_str()) {
                proof {
                    assert(self.model()[i as int].0 == name@);
                    lemma_find_key_unique(self.model(), name@, i as int);
                }
                return i;
            }
            proof {
                assert(self.model()[i as int].0 == self.entries@[i as int].0@);
            }
            i += 1;
        }
        proof {
            lemma_find_key_unique(self.model(), name@, self.model().len() as int);
        }
        i
    }

    /// The group stored under `name`, if any.
    pub fn get(&self, name: &str) -> (r: Option<&Group>)
        ensures
            match r {
                Some(g) => has_key(self.model(), name@) && group_model(*g) == key_value(
                    self.model(),
                    name@,
                ),
                None => !has_key(self.model(), name@),
            },
    {
        let nm = to_chars(name);
        let i = self.find(&nm);
        if i < self.entries.len() {
            proof {
                assert(self.model()[i as int].1 == group_model(self.entries@[i as int].1));
            }
            Some(&self.entries[i].1)
        } else {
            None
        }
    }
}

/// The groups of a document, keyed by number, in first-seen order.
#[derive(Clone, Debug, PartialEq)]
pub struct IdGroupMap {
    entries: Vec<(usize, Group)>,
}

impl IdGroupMap {
    /// The map's model: its key/group pairs, in order.
    pub closed spec fn model(&self) -> Seq<(usize, GGroup)> {
        self.entries@.map(|i: int, e: (usize, Group)| (e.0, group_model(e.1)))
    }

    /// An empty map.
    fn empty() -> (r: IdGroupMap)
        ensures
            r.model() == Seq::<(usize, GGroup)>::empty(),
    {
        let r = IdGroupMap { entries: Vec::new() };
        proof {
            assert(r.model() =~= Seq::<(usize, GGroup)>::empty());
        }
        r
    }

    /// How many groups the map holds.
    pub fn len(&self) -> (n: usize)
        ensures
            n == self.model().len(),
    {
        self.entries.len()
    }

    /// The index of `key` among the keys, or the map's size if absent.
    fn find(&self, key: usize) -> (r: usize)
        ensures
            r == find_key(self.model(), key),
    {
        let mut i: usize = 0;
        while i < self.entries.len()
            invariant
                i <= self.entries@.len(),
                forall|j: int| 0 <= j < i ==> (#[trigger] self.model()[j]).0 != key,
            decreases self.entries@.len() - i,
        {
            if self.entries[i].0 == key {
                proof {
                    assert(self.model()[i as int].0 == key);
                    lemma_find_key_unique(self.model(), key, i as int);
                }
                return i;
            }
            proof {
                assert(self.model()[i as int].0 == self.entries@[i as int].0);
            }
            i += 1;
        }
        proof {
            lemma_find_key_unique(self.model(), key, self.model().len() as int);
        }
        i
    }

    /// The group stored under `key`, if any.
    pub fn get(&self, key: usize) -> (r: Option<&Group>)
        ensures
            match r {
                Some(g) => has_key(self.model(), key) && group_model(*g) == key_value(
                    self.model(),
                    key,
                ),
                None => !has_key(self.model(), key),
            },
    {
        let i = self.find(key);
        if i < self.entries.len() {
            proof {
                assert(self.model()[i as int].1 == group_model(self.entries@[i as int].1));
            }
            Some(&self.entries[i].1)
        } else {
            None
        }
    }
}

/// Builds the name-keyed groupings of a document, one start/end call at a
/// time.  Element counts are passed in at each call, as a snapshot of the
/// growing element lists.
struct GroupBuilder {
    current: Option<String>,
    result: GroupMap,
}

impl GroupBuilder {
    /// The builder's model.
    spec fn model(&self) -> GBuilder<Seq<char>> {
        GBuilder {
            current: match self.current {
                Some(ref s) => Some(s@),
                None => None,
            },
            result: self.result.model(),
        }
    }

    /// A builder with nothing open and no groups.
    fn new() -> (r: GroupBuilder)
        ensures
            r.model() == (GBuilder::<Seq<char>> { current: None, result: Seq::empty() }),
            gbuilder_wf(r.model(), (0, 0, 0)),
    {
        let r = GroupBuilder { current: None, result: GroupMap::empty() };
        r
    }

    /// A builder with the group `default` already open at zero counts.
    fn with_default(default: String) -> (r: GroupBuilder)
        ensures
            r.model() == (GBuilder::<Seq<char>> {
                current: Some(default@),
                result: seq![(default@, group_open(ggroup_new(), (0, 0, 0)))],
            }),
            gbuilder_wf(r.model(), (0, 0, 0)),
    {
        let mut entries: Vec<(String, Group)> = Vec::new();
        let g = Group::new((0, 0, 0));
        let ghost gm = group_model(g);
        entries.push((default.clone(), g));
        let r = GroupBuilder { current: Some(default), result: GroupMap { entries } };
        proof {
            assert(r.result.model() =~= seq![(r.current->Some_0@, gm)]);
            let m = r.model();
            lemma_find_key_unique(m.result, m.current->Some_0, 0);
            lemma_ranges_open_wf(Seq::<Range>::empty(), 0, 0);
            assert(ggroup_new().points =~= Seq::<Range>::empty());
            assert(ggroup_new().lines =~= Seq::<Range>::empty());
            assert(ggroup_new().polygons =~= Seq::<Range>::empty());
        }
        r
    }

    /// Closes the open group, if any, at `count`.
    fn end(&mut self, count: (usize, usize, usize))
        requires
            gbuilder_wf(old(self).model(), count),
        ensures
            final(self).model() == gb_end(old(self).model(), count),
            gbuilder_wf(final(self).model(), count),
    {
        proof {
            lemma_gb_close_current_wf(old(self).model(), count);
        }
        let i = match &self.current {
            None => {
                return ;
            },
            Some(cur) => {
                let cc = to_chars(cur.as_str());
                self.result.find(&cc)
            },
        };
        proof {
            lemma_find_key(self.result.model(), self.model().current->Some_0);
        }
        let mut e = self.result.entries.remove(i);
        let was_empty = e.1.end(count);
        let ghost m0 = old(self).model();
        if !was_empty {
            self.result.entries.insert(i, e);
        }
        self.current = None;
        proof {
            let i0 = find_key(m0.result, m0.current->Some_0);
            let closed = group_close(m0.result[i0].1, count);
            if ggroup_is_empty(closed) {
                assert(self.result.model() =~= m0.result.remove(i0));
            } else {
                assert(self.result.model() =~= m0.result.update(
                    i0,
                    (m0.current->Some_0, closed),
                ));
            }
        }
    }

    /// Starts the group `key` at `count`: a repeated start is a no-op;
    /// otherwise the open group is closed first, and `key` is resumed or
    /// created.
    fn start(&mut self, key: &Vec<char>, count: (usize, usize, usize))
        requires
            gbuilder_wf(old(self).model(), count),
        ensures
            final(self).model() == gb_start(old(self).model(), key@, count),
            gbuilder_wf(final(self).model(), count),
    {
        proof {
            lemma_gb_start_wf(old(self).model(), key@, count);
        }
        let same = match &self.current {
            Some(cur) => chars_eq_str(key, cur.as_str()),
            None => false,
        };
        if same {
            return ;
        }
        self.end(count);
        let ghost b1 = gb_close_current(old(self).model(), count);
        let i = self.result.find(key);
        proof {
            lemma_find_key(b1.result, key@);
        }
        if i < self.result.entries.len() {
            let mut e = self.result.entries.remove(i);
            e.1.start(count);
            self.result.entries.insert(i, e);
            proof {
                assert(self.result.model() =~= b1.result.update(
                    i as int,
                    (key@, group_open(b1.result[i as int].1, count)),
                ));
            }
        } else {
            let g = Group::new(count);
            self.result.entries.push((chars_to_string(key), g));
            proof {
                assert(self.result.model() =~= b1.result.push(
                    (key@, group_open(ggroup_new(), count)),
                ));
            }
        }
        self.current = Some(chars_to_string(key));
    }
}

/// Builds the number-keyed groupings of a document.
struct IdGroupBuilder {
    current: Option<usize>,
    result: IdGroupMap,
}

impl IdGroupBuilder {
    /// The builder's model.
    spec fn model(&self) -> GBuilder<usize> {
        GBuilder { current: self.current, result: self.result.model() }
    }

    /// A builder with nothing open and no groups.
    fn new() -> (r: IdGroupBuilder)
        ensures
            r.model() == (GBuilder::<usize> { current: None, result: Seq::empty() }),
            gbuilder_wf(r.model(), (0, 0, 0)),
    {
        let r = IdGroupBuilder { current: None, result: IdGroupMap::empty() };
        r
    }

    /// Closes the open group, if any, at `count`.
    fn end(&mut self, count: (usize, usize, usize))
        requires
            gbuilder_wf(old(self).model(), count),
        ensures
            final(self).model() == gb_end(old(self).model(), count),
            gbuilder_wf(final(self).model(), count),
    {
        proof {
            lemma_gb_close_current_wf(old(self).model(), count);
        }
        let i = match self.current {
            None => {
                return ;
            },
            Some(cur) => self.result.find(cur),
        };
        proof {
            lemma_find_key(self.result.model(), self.model().current->Some_0);
        }
        let mut e = self.result.entries.remove(i);
        let was_empty = e.1.end(count);
        let ghost m0 = old(self).model();
        if !was_empty {
            self.result.entries.insert(i, e);
        }
        self.current = None;
        proof {
            let i0 = find_key(m0.result, m0.current->Some_0);
            let closed = group_close(m0.result[i0].1, count);
            if ggroup_is_empty(closed) {
                assert(self.result.model() =~= m0.result.remove(i0));
            } else {
                assert(self.result.model() =~= m0.result.update(
                    i0,
                    (m0.current->Some_0, closed),
                ));
            }
        }
    }

    /// Starts the group `key` at `count`.
    fn start(&mut self, key: usize, count: (usize, usize, usize))
        requires
            gbuilder_wf(old(self).model(), count),
        ensures
            final(self).model() == gb_start(old(self).model(), key, count),
            gbuilder_wf(final(self).model(), count),
    {
        proof {
            lemma_gb_start_wf(old(self).model(), key, count);
        }
        let same = match self.current {
            Some(cur) => cur == key,
            None => false,
        };
        if same {
            return ;
        }
        self.end(count);
        let ghost b1 = gb_close_current(old(self).model(), count);
        let i = self.result.find(key);
        proof {
            lemma_find_key(b1.result, key);
        }
        if i < self.result.entries.len() {
            let mut e = self.result.entries.remove(i);
            e.1.start(count);
            self.result.entries.insert(i, e);
            proof {
                assert(self.result.model() =~= b1.result.update(
                    i as int,
                    (key, group_open(b1.result[i as int].1, count)),
                ));
            }
        } else {
            let g = Group::new(count);
            self.result.entries.push((key, g));
            proof {
                assert(self.result.model() =~= b1.result.push(
                    (key, group_open(ggroup_new(), count)),
                ));
            }
        }
        self.current = Some(key);
    }
}

/// What resolving `tok` against a list of `len` entries yields.  Positive
/// indices are one-based; negative ones count back from the end of the
/// list; zero and anything outside the list is rejected.
pub open spec fn try_index_spec(len: int, tok: Seq<char>) -> Result<int, ErrModel> {
    if len > isize::MAX as int {
        Err(ErrModel::Load(LoadErrorKind::IndexOutOfRange))
    } else {
        match parse_isize_spec(tok) {
            Err(k) => Err(ErrModel::ParseInt(k)),
            Ok(ix) => {
                if ix < -len {
                    Err(ErrModel::Load(LoadErrorKind::IndexOutOfRange))
                } else if ix < 0 {
                    Ok(len + ix)
                } else if ix == 0 {
                    Err(ErrModel::Load(LoadErrorKind::IndexOutOfRange))
                } else if ix <= len {
                    Ok(ix - 1)
                } else {
                    Err(ErrModel::Load(LoadErrorKind::IndexOutOfRange))
                }
            },
        }
    }
}

/// Resolves one vertex-reference index against `collection`.
pub fn try_index<T>(collection: &Vec<T>, input: &Vec<char>) -> (r: Result<usize, ObjError>)
    ensures
        match r {
            Ok(v) => try_index_spec(collection@.len() as int, input@) == Ok::<int, ErrModel>(
                v as int,
            ),
            Err(e) => try_index_spec(collection@.len() as int, input@) == Err::<int, ErrModel>(
                err_model(e),
            ),
        },
{
    let len = collection.len();
    if len > isize::MAX as usize {
        return Err(
            ObjError::Load(
                LoadError::new(LoadErrorKind::IndexOutOfRange, "Too many items in collection"),
            ),
        );
    }
    let l = len as isize;
    match parse_isize(input) {
        Err(k) => Err(ObjError::ParseInt(k)),
        Ok(ix) => {
            if ix < -l {
                Err(
                    ObjError::Load(
                        LoadError::new(LoadErrorKind::IndexOutOfRange, "Too small index value"),
                    ),
                )
            } else if ix < 0 {
                Ok((l + ix) as usize)
            } else if ix == 0 {
                Err(
                    ObjError::Load(
                        LoadError::new(
                            LoadErrorKind::IndexOutOfRange,
                            "Index value shouldn't be zero",
                        ),
                    ),
                )
            } else if ix <= l {
                Ok((ix - 1) as usize)
            } else {
                Err(
                    ObjError::Load(
                        LoadError::new(LoadErrorKind::IndexOutOfRange, "Too big index value"),
                    ),
                )
            }
        },
    }
}

/// The pieces of a vertex reference, split at every slash; empty pieces
/// are kept.
pub open spec fn split_slash(s: Seq<char>) -> Seq<Seq<char>>
    decreases s.len() via split_slash_dec
{
    let i = first_where(s, |c: char| c == '/');
    if i == s.len() {
        seq![s]
    } else {
        seq![s.take(i)] + split_slash(s.skip(i + 1))
    }
}

#[via_fn]
proof fn split_slash_dec(s: Seq<char>) {
    lemma_first_where(s, |c: char| c == '/');
}

/// Splits a vertex reference at every slash.
pub fn split_vertex_group(input: &Vec<char>) -> (r: Vec<Vec<char>>)
    ensures
        lines_model(r@) == split_slash(input@),
{
    let mut r: Vec<Vec<char>> = Vec::new();
    let mut i: usize = 0;
    proof {
        assert(input@.skip(0) =~= input@);
        assert(lines_model(r@) + split_slash(input@) =~= split_slash(input@));
    }
    loop
        invariant
            i <= input@.len(),
            split_slash(input@) == lines_model(r@) + split_slash(input@.skip(i as int)),
        decreases input@.len() - i,
    {
        let j = find_char(input, i, '/');
        let piece = copy_range(input, i, j);
        proof {
            let rest = input@.skip(i as int);
            lemma_first_where_unique(rest, |c: char| c == '/', j - i);
            assert(rest.take(j - i) =~= piece@);
            if j < input@.len() {
                assert(rest.skip(j - i + 1) =~= input@.skip(j + 1));
            }
        }
        r.push(piece);
        proof {
            let rest = input@.skip(i as int);
            assert(lines_model(r@) =~= lines_model(r@.drop_last()) + seq![piece@]);
            if j == input@.len() {
                assert(split_slash(rest) =~= seq![piece@]);
                assert(lines_model(r@.drop_last()) + seq![piece@] =~= lines_model(r@));
                assert(lines_model(r@) + Seq::<Seq<char>>::empty() =~= lines_model(r@));
            } else {
                assert(split_slash(rest) =~= seq![piece@] + split_slash(input@.skip(j + 1)));
                assert(lines_model(r@.drop_last()) + (seq![piece@] + split_slash(
                    input@.skip(j + 1),
                )) =~= lines_model(r@) + split_slash(input@.skip(j + 1)));
            }
        }
        if j == input.len() {
            return r;
        }
        i = j + 1;
    }
}

/// Position-only references: each argument must be a single index, resolved
/// against the position list.
pub open spec fn collect_p(plen: int, args: Seq<Seq<char>>) -> Result<Seq<usize>, ErrModel>
    decreases args.len(),
{
    if args.len() == 0 {
        Ok(Seq::empty())
    } else {
        let parts = split_slash(args[0]);
        if parts.len() != 1 {
            Err(ErrModel::Load(LoadErrorKind::WrongTypeOfArguments))
        } else {
            match try_index_spec(plen, parts[0]) {
                Err(e) => Err(e),
                Ok(p) => match collect_p(plen, args.skip(1)) {
                    Err(e) => Err(e),
                    Ok(rest) => Ok(seq![p as usize] + rest),
                },
            }
        }
    }
}

/// Position/texture references of the form `p/t`.
pub open spec fn collect_pt(plen: int, tlen: int, args: Seq<Seq<char>>) -> Result<
    Seq<(usize, usize)>,
    ErrModel,
>
    decreases args.len(),
{
    if args.len() == 0 {
        Ok(Seq::empty())
    } else {
        let parts = split_slash(args[0]);
        if parts.len() != 2 {
            Err(ErrModel::Load(LoadErrorKind::WrongTypeOfArguments))
        } else {
            match try_index_spec(plen, parts[0]) {
                Err(e) => Err(e),
                Ok(p) => match try_index_spec(tlen, parts[1]) {
                    Err(e) => Err(e),
                    Ok(t) => match collect_pt(plen, tlen, args.skip(1)) {
                        Err(e) => Err(e),
                        Ok(rest) => Ok(seq![(p as usize, t as usize)] + rest),
                    },
                },
            }
        }
    }
}

/// Position/normal references of the form `p//n`.
pub open spec fn collect_pn(plen: int, nlen: int, args: Seq<Seq<char>>) -> Result<
    Seq<(usize, usize)>,
    ErrModel,
>
    decreases args.len(),
{
    if args.len() == 0 {
        Ok(Seq::empty())
    } else {
        let parts = split_slash(args[0]);
        if !(parts.len() == 3 && parts[1].len() == 0) {
            Err(ErrModel::Load(LoadErrorKind::WrongTypeOfArguments))
        } else {
            match try_index_spec(plen, parts[0]) {
                Err(e) => Err(e),
                Ok(p) => match try_index_spec(nlen, parts[2]) {
                    Err(e) => Err(e),
                    Ok(n) => match collect_pn(plen, nlen, args.skip(1)) {
                        Err(e) => Err(e),
                        Ok(rest) => Ok(seq![(p as usize, n as usize)] + rest),
                    },
                },
            }
        }
    }
}

/// Position/texture/normal references of the form `p/t/n`.
pub open spec fn collect_ptn(plen: int, tlen: int, nlen: int, args: Seq<Seq<char>>) -> Result<
    Seq<(usize, usize, usize)>,
    ErrModel,
>
    decreases args.len(),
{
    if args.len() == 0 {
        Ok(Seq::empty())
    } else {
        let parts = split_slash(args[0]);
        if parts.len() != 3 {
            Err(ErrModel::Load(LoadErrorKind::WrongTypeOfArguments))
        } else {
            match try_index_spec(plen, parts[0]) {
                Err(e) => Err(e),
                Ok(p) => match try_index_spec(tlen, parts[1]) {
                    Err(e) => Err(e),
                    Ok(t) => match try_index_spec(nlen, parts[2]) {
                        Err(e) => Err(e),
                        Ok(n) => match collect_ptn(plen, tlen, nlen, args.skip(1)) {
                            Err(e) => Err(e),
                            Ok(rest) => Ok(seq![(p as usize, t as usize, n as usize)] + rest),
                        },
                    },
                },
            }
        }
    }
}

/// Gathers position-only references from all arguments.
fn gather_p<A>(positions: &Vec<A>, args: &Vec<Vec<char>>) -> (r: Result<Vec<usize>, ObjError>)
    ensures
        match r {
            Ok(v) => collect_p(positions@.len() as int, lines_model(args@)) == Ok::<
                Seq<usize>,
                ErrModel,
            >(v@),
            Err(e) => collect_p(positions@.len() as int, lines_model(args@)) == Err::<
                Seq<usize>,
                ErrModel,
            >(err_model(e)),
        },
{
    let ghost am = lines_model(args@);
    let ghost plen = positions@.len() as int;
    let mut out: Vec<usize> = Vec::new();
    let mut i: usize = 0;
    proof {
        assert(am.skip(0) =~= am);
    }
    loop
        invariant
            i <= args@.len(),
            am == lines_model(args@),
            plen == positions@.len() as int,
            collect_p(plen, am) == match collect_p(plen, am.skip(i as int)) {
                Ok(rest) => Ok::<Seq<usize>, ErrModel>(out@ + rest),
                Err(e) => Err::<Seq<usize>, ErrModel>(e),
            },
        decreases args@.len() - i,
    {
        if i == args.len() {
            proof {
                assert(am.skip(i as int) =~= Seq::<Seq<char>>::empty());
                assert(out@ + Seq::<usize>::empty() =~= out@);
            }
            return Ok(out);
        }
        proof {
            assert(am.skip(i as int)[0] == am[i as int]);
            assert(am[i as int] == args@[i as int]@);
            assert(am.skip(i as int).skip(1) =~= am.skip(i + 1));
        }
        let parts = split_vertex_group(&args[i]);
        if parts.len() != 1 {
            return Err(
                ObjError::Load(
                    LoadError::new(
                        LoadErrorKind::WrongTypeOfArguments,
                        "Unexpected vertex format, expected `#`",
                    ),
                ),
            );
        }
        proof {
            assert(lines_model(parts@)[0] == parts@[0]@);
        }
        let p = match try_index(positions, &parts[0]) {
            Ok(p) => p,
            Err(e) => {
                return Err(e);
            },
        };
        let ghost out0 = out@;
        out.push(p);
        proof {
            let rest0 = am.skip(i as int);
            assert(collect_p(plen, rest0) == match collect_p(plen, rest0.skip(1)) {
                Ok(rest) => Ok::<Seq<usize>, ErrModel>(seq![p] + rest),
                Err(e) => Err::<Seq<usize>, ErrModel>(e),
            });
            if collect_p(plen, rest0.skip(1)) is Ok {
                let rest = collect_p(plen, rest0.skip(1))->Ok_0;
                assert(out0 + (seq![p] + rest) =~= out@ + rest);
            }
        }
        i += 1;
    }
}

/// Gathers `p/t` references from all arguments.
fn gather_pt<A, B>(positions: &Vec<A>, tex_coords: &Vec<B>, args: &Vec<Vec<char>>) -> (r: Result<
    Vec<(usize, usize)>,
    ObjError,
>)
    ensures
        match r {
            Ok(v) => collect_pt(positions@.len() as int, tex_coords@.len() as int, lines_model(args@))
                == Ok::<Seq<(usize, usize)>, ErrModel>(v@),
            Err(e) => collect_pt(
                positions@.len() as int,
                tex_coords@.len() as int,
                lines_model(args@),
            ) == Err::<Seq<(usize, usize)>, ErrModel>(err_model(e)),
        },
{
    let ghost am = lines_model(args@);
    let ghost plen = positions@.len() as int;
    let ghost tlen = tex_coords@.len() as int;
    let mut out: Vec<(usize, usize)> = Vec::new();
    let mut i: usize = 0;
    proof {
        assert(am.skip(0) =~= am);
    }
    loop
        invariant
            i <= args@.len(),
            am == lines_model(args@),
            plen == positions@.len() as int,
            tlen == tex_coords@.len() as int,
            collect_pt(plen, tlen, am) == match collect_pt(plen, tlen, am.skip(i as int)) {
                Ok(rest) => Ok::<Seq<(usize, usize)>, ErrModel>(out@ + rest),
                Err(e) => Err::<Seq<(usize, usize)>, ErrModel>(e),
            },
        decreases args@.len() - i,
    {
        if i == args.len() {
            proof {
                assert(am.skip(i as int) =~= Seq::<Seq<char>>::empty());
                assert(out@ + Seq::<(usize, usize)>::empty() =~= out@);
            }
            return Ok(out);
        }
        proof {
            assert(am.skip(i as int)[0] == am[i as int]);
            assert(am[i as int] == args@[i as int]@);
            assert(am.skip(i as int).skip(1) =~= am.skip(i + 1));
        }
        let parts = split_vertex_group(&args[i]);
        if parts.len() != 2 {
            return Err(
                ObjError::Load(
                    LoadError::new(
                        LoadErrorKind::WrongTypeOfArguments,
                        "Unexpected vertex format, expected `#/#`",
                    ),
                ),
            );
        }
        proof {
            assert(lines_model(parts@)[0] == parts@[0]@);
            assert(lines_model(parts@)[1] == parts@[1]@);
        }
        let p = match try_index(positions, &parts[0]) {
            Ok(p) => p,
            Err(e) => {
                return Err(e);
            },
        };
        let t = match try_index(tex_coords, &parts[1]) {
            Ok(t) => t,
            Err(e) => {
                return Err(e);
            },
        };
        let ghost out0 = out@;
        out.push((p, t));
        proof {
            let rest0 = am.skip(i as int);
            assert(collect_pt(plen, tlen, rest0) == match collect_pt(plen, tlen, rest0.skip(1)) {
                Ok(rest) => Ok::<Seq<(usize, usize)>, ErrModel>(seq![(p, t)] + rest),
                Err(e) => Err::<Seq<(usize, usize)>, ErrModel>(e),
            });
            if collect_pt(plen, tlen, rest0.skip(1)) is Ok {
                let rest = collect_pt(plen, tlen, rest0.skip(1))->Ok_0;
                assert(out0 + (seq![(p, t)] + rest) =~= out@ + rest);
            }
        }
        i += 1;
    }
}

/// Gathers `p//n` references from all arguments.
fn gather_pn<A, B>(positions: &Vec<A>, normals: &Vec<B>, args: &Vec<Vec<char>>) -> (r: Result<
    Vec<(usize, usize)>,
    ObjError,
>)
    ensures
        match r {
            Ok(v) => collect_pn(positions@.len() as int, normals@.len() as int, lines_model(args@))
                == Ok::<Seq<(usize, usize)>, ErrModel>(v@),
            Err(e) => collect_pn(positions@.len() as int, normals@.len() as int, lines_model(args@))
                == Err::<Seq<(usize, usize)>, ErrModel>(err_model(e)),
        },
{
    let ghost am = lines_model(args@);
    let ghost plen = positions@.len() as int;
    let ghost nlen = normals@.len() as int;
    let mut out: Vec<(usize, usize)> = Vec::new();
    let mut i: usize = 0;
    proof {
        assert(am.skip(0) =~= am);
    }
    loop
        invariant
            i <= args@.len(),
            am == lines_model(args@),
            plen == positions@.len() as int,
            nlen == normals@.len() as int,
            collect_pn(plen, nlen, am) == match collect_pn(plen, nlen, am.skip(i as int)) {
                Ok(rest) => Ok::<Seq<(usize, usize)>, ErrModel>(out@ + rest),
                Err(e) => Err::<Seq<(usize, usize)>, ErrModel>(e),
            },
        decreases args@.len() - i,
    {
        if i == args.len() {
            proof {
                assert(am.skip(i as int) =~= Seq::<Seq<char>>::empty());
                assert(out@ + Seq::<(usize, usize)>::empty() =~= out@);
            }
            return Ok(out);
        }
        proof {
            assert(am.skip(i as int)[0] == am[i as int]);
            assert(am[i as int] == args@[i as int]@);
            assert(am.skip(i as int).skip(1) =~= am.skip(i + 1));
        }
        let parts = split_vertex_group(&args[i]);
        if !(parts.len() == 3 && parts[1].len() == 0) {
            proof {
                if parts@.len() == 3 {
                    assert(lines_model(parts@)[1] == parts@[1]@);
                }
            }
            return Err(
                ObjError::Load(
                    LoadError::new(
                        LoadErrorKind::WrongTypeOfArguments,
                        "Unexpected vertex format, expected `#//#`",
                    ),
                ),
            );
        }
        proof {
            assert(lines_model(parts@)[0] == parts@[0]@);
            assert(lines_model(parts@)[1] == parts@[1]@);
            assert(lines_model(parts@)[2] == parts@[2]@);
        }
        let p = match try_index(positions, &parts[0]) {
            Ok(p) => p,
            Err(e) => {
                return Err(e);
            },
        };
        let n = match try_index(normals, &parts[2]) {
            Ok(n) => n,
            Err(e) => {
                return Err(e);
            },
        };
        let ghost out0 = out@;
        out.push((p, n));
        proof {
            let rest0 = am.skip(i as int);
            assert(collect_pn(plen, nlen, rest0) == match collect_pn(plen, nlen, rest0.skip(1)) {
                Ok(rest) => Ok::<Seq<(usize, usize)>, ErrModel>(seq![(p, n)] + rest),
                Err(e) => Err::<Seq<(usize, usize)>, ErrModel>(e),
            });
            if collect_pn(plen, nlen, rest0.skip(1)) is Ok {
                let rest = collect_pn(plen, nlen, rest0.skip(1))->Ok_0;
                assert(out0 + (seq![(p, n)] + rest) =~= out@ + rest);
            }
        }
        i += 1;
    }
}

/// Gathers `p/t/n` references from all arguments.
fn gather_ptn<A, B, C>(
    positions: &Vec<A>,
    tex_coords: &Vec<B>,
    normals: &Vec<C>,
    args: &Vec<Vec<char>>,
) -> (r: Result<Vec<(usize, usize, usize)>, ObjError>)
    ensures
        match r {
            Ok(v) => collect_ptn(
                positions@.len() as int,
                tex_coords@.len() as int,
                normals@.len() as int,
                lines_model(args@),
            ) == Ok::<Seq<(usize, usize, usize)>, ErrModel>(v@),
            Err(e) => collect_ptn(
                positions@.len() as int,
                tex_coords@.len() as int,
                normals@.len() as int,
                lines_model(args@),
            ) == Err::<Seq<(usize, usize, usize)>, ErrModel>(err_model(e)),
        },
{
    let ghost am = lines_model(args@);
    let ghost plen = positions@.len() as int;
    let ghost tlen = tex_coords@.len() as int;
    let ghost nlen = normals@.len() as int;
    let mut out: Vec<(usize, usize, usize)> = Vec::new();
    let mut i: usize = 0;
    proof {
        assert(am.skip(0) =~= am);
    }
    loop
        invariant
            i <= args@.len(),
            am == lines_model(args@),
            plen == positions@.len() as int,
            tlen == tex_coords@.len() as int,
            nlen == normals@.len() as int,
            collect_ptn(plen, tlen, nlen, am) == match collect_ptn(
                plen,
                tlen,
                nlen,
                am.skip(i as int),
            ) {
                Ok(rest) => Ok::<Seq<(usize, usize, usize)>, ErrModel>(out@ + rest),
                Err(e) => Err::<Seq<(usize, usize, usize)>, ErrModel>(e),
            },
        decreases args@.len() - i,
    {
        if i == args.len() {
            proof {
                assert(am.skip(i as int) =~= Seq::<Seq<char>>::empty());
                assert(out@ + Seq::<(usize, usize, usize)>::empty() =~= out@);
            }
            return Ok(out);
        }
        proof {
            assert(am.skip(i as int)[0] == am[i as int]);
            assert(am[i as int] == args@[i as int]@);
            assert(am.skip(i as int).skip(1) =~= am.skip(i + 1));
        }
        let parts = split_vertex_group(&args[i]);
        if parts.len() != 3 {
            return Err(
                ObjError::Load(
                    LoadError::new(
                        LoadErrorKind::WrongTypeOfArguments,
                        "Unexpected vertex format, expected `#/#/#`",
                    ),
                ),
            );
        }
        proof {
            assert(lines_model(parts@)[0] == parts@[0]@);
            assert(lines_model(parts@)[1] == parts@[1]@);
            assert(lines_model(parts@)[2] == parts@[2]@);
        }
        let p = match try_index(positions, &parts[0]) {
            Ok(p) => p,
            Err(e) => {
                return Err(e);
            },
        };
        let t = match try_index(tex_coords, &parts[1]) {
            Ok(t) => t,
            Err(e) => {
                return Err(e);
            },
        };
        let n = match try_index(normals, &parts[2]) {
            Ok(n) => n,
            Err(e) => {
                return Err(e);
            },
        };
        let ghost out0 = out@;
        out.push((p, t, n));
        proof {
            let rest0 = am.skip(i as int);
            assert(collect_ptn(plen, tlen, nlen, rest0) == match collect_ptn(
                plen,
                tlen,
                nlen,
                rest0.skip(1),
            ) {
                Ok(rest) => Ok::<Seq<(usize, usize, usize)>, ErrModel>(seq![(p, t, n)] + rest),
                Err(e) => Err::<Seq<(usize, usize, usize)>, ErrModel>(e),
            });
            if collect_ptn(plen, tlen, nlen, rest0.skip(1)) is Ok {
                let rest = collect_ptn(plen, tlen, nlen, rest0.skip(1))->Ok_0;
                assert(out0 + (seq![(p, t, n)] + rest) =~= out@ + rest);
            }
        }
        i += 1;
    }
}

/// The arguments joined with single spaces.
pub open spec fn join_spaces(args: Seq<Seq<char>>) -> Seq<char>
    decreases args.len(),
{
    if args.len() == 0 {
        Seq::empty()
    } else if args.len() == 1 {
        args[0]
    } else {
        args[0] + seq![' '] + join_spaces(args.skip(1))
    }
}

/// Joining distributes over adding one more argument at the back.
proof fn lemma_join_spaces_push(args: Seq<Seq<char>>, x: Seq<char>)
    ensures
        join_spaces(args.push(x)) == if args.len() == 0 {
            x
        } else {
            join_spaces(args) + seq![' '] + x
        },
    decreases args.len(),
{
    let whole = args.push(x);
    if args.len() == 0 {
        assert(whole[0] == x);
    } else {
        assert(whole[0] == args[0]);
        assert(whole.skip(1) =~= args.skip(1).push(x));
        lemma_join_spaces_push(args.skip(1), x);
        if args.len() == 1 {
            assert(args.skip(1).len() == 0);
            assert(join_spaces(whole) =~= args[0] + seq![' '] + x);
        } else {
            assert(join_spaces(whole) =~= join_spaces(args) + seq![' '] + x);
        }
    }
}

/// Joins the arguments with single spaces.
fn join_args(args: &Vec<Vec<char>>) -> (r: Vec<char>)
    ensures
        r@ == join_spaces(lines_model(args@)),
{
    let ghost am = lines_model(args@);
    let mut out: Vec<char> = Vec::new();
    let mut i: usize = 0;
    proof {
        assert(am.take(0) =~= Seq::<Seq<char>>::empty());
        assert(out@ =~= join_spaces(am.take(0)));
    }
    while i < args.len()
        invariant
            i <= args@.len(),
            am == lines_model(args@),
            out@ == join_spaces(am.take(i as int)),
        decreases args@.len() - i,
    {
        if i > 0 {
            out.push(' ');
        }
        let ghost before = out@;
        crate::text::append_range(&mut out, &args[i], 0, args[i].len());
        proof {
            assert(args@[i as int]@.subrange(0, args@[i as int]@.len() as int) =~= args@[
                i as int
            ]@);
            assert(am.take(i + 1 as int) =~= am.take(i as int).push(am[i as int]));
            lemma_join_spaces_push(am.take(i as int), am[i as int]);
            assert(am[i as int] == args@[i as int]@);
            if i == 0 {
                assert(out@ =~= am[0]);
            } else {
                assert(out@ =~= join_spaces(am.take(i as int)) + seq![' '] + am[i as int]);
            }
        }
        i += 1;
    }
    proof {
        assert(am.take(args@.len() as int) =~= am);
    }
    out
}

/// Four float tokens: one position.
pub type G4 = (Seq<char>, Seq<char>, Seq<char>, Seq<char>);

/// Three float tokens: one texture coordinate, normal or parametric vertex.
pub type G3 = (Seq<char>, Seq<char>, Seq<char>);

/// The state of an OBJ parse, and the model of the finished document.
pub struct GDoc {
    /// The object's name, from the last `o` statement.
    pub name: Option<Seq<char>>,
    /// The material files named by `mtllib` statements.
    pub material_libraries: Seq<Seq<char>>,
    /// Position vectors, as validated float tokens.
    pub positions: Seq<G4>,
    /// Texture coordinates, as validated float tokens.
    pub tex_coords: Seq<G3>,
    /// Normal vectors, as validated float tokens.
    pub normals: Seq<G3>,
    /// Parametric vertices, as validated float tokens.
    pub param_vertices: Seq<G3>,
    /// Point elements.
    pub points: Seq<usize>,
    /// Line elements.
    pub lines: Seq<GLine>,
    /// Polygon elements.
    pub polygons: Seq<GPolygon>,
    /// The name-keyed object groups.
    pub groups: GBuilder<Seq<char>>,
    /// The material-keyed meshes.
    pub meshes: GBuilder<Seq<char>>,
    /// The smoothing groups.
    pub smoothing_groups: GBuilder<usize>,
    /// The merging groups.
    pub merging_groups: GBuilder<usize>,
}

/// The current element counts: points, lines, polygons.
pub open spec fn gdoc_count(d: GDoc) -> (usize, usize, usize) {
    (d.points.len() as usize, d.lines.len() as usize, d.polygons.len() as usize)
}

/// The parse state before any statement: everything empty, with the
/// default object group `"default"` and the default mesh `""` open.
pub open spec fn gdoc_init() -> GDoc {
    GDoc {
        name: None,
        material_libraries: Seq::empty(),
        positions: Seq::empty(),
        tex_coords: Seq::empty(),
        normals: Seq::empty(),
        param_vertices: Seq::empty(),
        points: Seq::empty(),
        lines: Seq::empty(),
        polygons: Seq::empty(),
        groups: GBuilder {
            current: Some("default"@),
            result: seq![("default"@, group_open(ggroup_new(), (0, 0, 0)))],
        },
        meshes: GBuilder {
            current: Some(""@),
            result: seq![(""@, group_open(ggroup_new(), (0, 0, 0)))],
        },
        smoothing_groups: GBuilder { current: None, result: Seq::empty() },
        merging_groups: GBuilder { current: None, result: Seq::empty() },
    }
}

/// The `v` statement data: three or four float tokens; a missing fourth
/// defaults to `1`.
pub open spec fn v_data(args: Seq<Seq<char>>) -> Result<G4, ErrModel> {
    if !all_float_tokens(args, 0) {
        Err(ErrModel::ParseFloat)
    } else if args.len() == 4 {
        Ok((args[0], args[1], args[2], args[3]))
    } else if args.len() == 3 {
        Ok((args[0], args[1], args[2], "1"@))
    } else {
        Err(ErrModel::Load(LoadErrorKind::WrongNumberOfArguments))
    }
}

/// The `vt` statement data: one to three float tokens; missing components
/// default to `0`.
pub open spec fn vt_data(args: Seq<Seq<char>>) -> Result<G3, ErrModel> {
    if !all_float_tokens(args, 0) {
        Err(ErrModel::ParseFloat)
    } else if args.len() == 3 {
        Ok((args[0], args[1], args[2]))
    } else if args.len() == 2 {
        Ok((args[0], args[1], "0"@))
    } else if args.len() == 1 {
        Ok((args[0], "0"@, "0"@))
    } else {
        Err(ErrModel::Load(LoadErrorKind::WrongNumberOfArguments))
    }
}

/// The `vn` statement data: exactly three float tokens.
pub open spec fn vn_data(args: Seq<Seq<char>>) -> Result<G3, ErrModel> {
    if !all_float_tokens(args, 0) {
        Err(ErrModel::ParseFloat)
    } else if args.len() == 3 {
        Ok((args[0], args[1], args[2]))
    } else {
        Err(ErrModel::Load(LoadErrorKind::WrongNumberOfArguments))
    }
}

/// The `vp` statement data: one to three float tokens; a missing second
/// defaults to `0`, a missing third to `1`.
pub open spec fn vp_data(args: Seq<Seq<char>>) -> Result<G3, ErrModel> {
    if !all_float_tokens(args, 0) {
        Err(ErrModel::ParseFloat)
    } else if args.len() == 3 {
        Ok((args[0], args[1], args[2]))
    } else if args.len() == 2 {
        Ok((args[0], args[1], "1"@))
    } else if args.len() == 1 {
        Ok((args[0], "0"@, "1"@))
    } else {
        Err(ErrModel::Load(LoadErrorKind::WrongNumberOfArguments))
    }
}

/// Point indices resolved and appended one by one.
pub open spec fn points_fold(plen: int, points: Seq<usize>, args: Seq<Seq<char>>) -> Result<
    Seq<usize>,
    ErrModel,
>
    decreases args.len(),
{
    if args.len() == 0 {
        Ok(points)
    } else {
        match try_index_spec(plen, args[0]) {
            Err(e) => Err(e),
            Ok(ix) => points_fold(plen, points.push(ix as usize), args.skip(1)),
        }
    }
}

/// What an `l` statement contributes: the shape of its first reference
/// decides between the position-only and position/texture forms.
pub open spec fn line_data(plen: int, tlen: int, args: Seq<Seq<char>>) -> Result<
    GLine,
    ErrModel,
> {
    if args.len() < 2 {
        Err(ErrModel::Load(LoadErrorKind::WrongNumberOfArguments))
    } else {
        let parts = split_slash(args[0]);
        if parts.len() == 1 {
            match collect_p(plen, args) {
                Err(e) => Err(e),
                Ok(v) => Ok(GLine::P(v)),
            }
        } else if parts.len() == 2 {
            match collect_pt(plen, tlen, args) {
                Err(e) => Err(e),
                Ok(v) => Ok(GLine::PT(v)),
            }
        } else {
            Err(ErrModel::Load(LoadErrorKind::WrongTypeOfArguments))
        }
    }
}

/// What an `f` or `fo` statement contributes: the shape of its first
/// reference decides among the four polygon forms.
pub open spec fn polygon_data(plen: int, tlen: int, nlen: int, args: Seq<Seq<char>>) -> Result<
    GPolygon,
    ErrModel,
> {
    if args.len() < 3 {
        Err(ErrModel::Load(LoadErrorKind::WrongNumberOfArguments))
    } else {
        let parts = split_slash(args[0]);
        if parts.len() == 1 {
            match collect_p(plen, args) {
                Err(e) => Err(e),
                Ok(v) => Ok(GPolygon::P(v)),
            }
        } else if parts.len() == 2 {
            match collect_pt(plen, tlen, args) {
                Err(e) => Err(e),
                Ok(v) => Ok(GPolygon::PT(v)),
            }
        } else if parts.len() == 3 && parts[1].len() == 0 {
            match collect_pn(plen, nlen, args) {
                Err(e) => Err(e),
                Ok(v) => Ok(GPolygon::PN(v)),
            }
        } else if parts.len() == 3 {
            match collect_ptn(plen, tlen, nlen, args) {
                Err(e) => Err(e),
                Ok(v) => Ok(GPolygon::PTN(v)),
            }
        } else {
            Err(ErrModel::Load(LoadErrorKind::WrongTypeOfArguments))
        }
    }
}

/// The geometry word of a `cstype` statement, if its arguments have one of
/// the two accepted shapes.
pub open spec fn cstype_geometry(args: Seq<Seq<char>>) -> Option<Seq<char>> {
    if args.len() == 2 && args[0] == "rat"@ {
        Some(args[1])
    } else if args.len() == 1 {
        Some(args[0])
    } else {
        None
    }
}

/// The five free-form curve and surface types the format defines.
pub open spec fn is_curve_type(ty: Seq<char>) -> bool {
    ty == "bmatrix"@ || ty == "bezier"@ || ty == "bspline"@ || ty == "cardinal"@ || ty
        == "taylor"@
}

/// Keywords the format defines but this library does not model; a
/// statement with one is out of the parser's domain whatever its arguments.
pub open spec fn is_unmodeled_keyword(kw: Seq<char>) -> bool {
    ||| kw == "bmat"@
    ||| kw == "step"@
    ||| kw == "curv"@
    ||| kw == "curv2"@
    ||| kw == "surf"@
    ||| kw == "parm"@
    ||| kw == "trim"@
    ||| kw == "hole"@
    ||| kw == "scrv"@
    ||| kw == "sp"@
    ||| kw == "end"@
    ||| kw == "con"@
    ||| kw == "bevel"@
    ||| kw == "c_interp"@
    ||| kw == "d_interp"@
    ||| kw == "lod"@
    ||| kw == "shadow_obj"@
    ||| kw == "trace_obj"@
    ||| kw == "ctech"@
    ||| kw == "stech"@
}

/// A statement the format defines but this library does not model: any
/// unmodeled keyword, a well-formed `cstype`, or a well-formed `deg`.
pub open spec fn stmt_unsupported(st: GStmt) -> bool {
    ||| is_unmodeled_keyword(st.keyword)
    ||| (st.keyword == "cstype"@ && match cstype_geometry(st.args) {
        Some(ty) => is_curve_type(ty),
        None => false,
    })
    ||| (st.keyword == "deg"@ && all_float_tokens(st.args, 0) && 1 <= st.args.len() <= 2)
}

/// No statement is out of the parser's domain.
pub open spec fn all_supported(stmts: Seq<GStmt>) -> bool {
    forall|i: int| 0 <= i < stmts.len() ==> !stmt_unsupported(#[trigger] stmts[i])
}

/// What one statement does to the parse state.
///
/// Of repeated `o` statements the last wins, and an object name given in
/// several words is joined with single blanks.  For a statement out of the
/// parser's domain (see [`stmt_unsupported`]) the result is unspecified.
pub open spec fn obj_step(d: GDoc, st: GStmt) -> Result<GDoc, ErrModel> {
    let kw = st.keyword;
    let args = st.args;
    let count = gdoc_count(d);
    if kw == "v"@ {
        match v_data(args) {
            Err(e) => Err(e),
            Ok(t) => Ok(GDoc { positions: d.positions.push(t), ..d }),
        }
    } else if kw == "vt"@ {
        match vt_data(args) {
            Err(e) => Err(e),
            Ok(t) => Ok(GDoc { tex_coords: d.tex_coords.push(t), ..d }),
        }
    } else if kw == "vn"@ {
        match vn_data(args) {
            Err(e) => Err(e),
            Ok(t) => Ok(GDoc { normals: d.normals.push(t), ..d }),
        }
    } else if kw == "vp"@ {
        match vp_data(args) {
            Err(e) => Err(e),
            Ok(t) => Ok(GDoc { param_vertices: d.param_vertices.push(t), ..d }),
        }
    } else if kw == "cstype"@ {
        match cstype_geometry(args) {
            None => Err(ErrModel::Load(LoadErrorKind::WrongTypeOfArguments)),
            Some(ty) => if is_curve_type(ty) {
                arbitrary()
            } else {
                Err(ErrModel::Load(LoadErrorKind::WrongTypeOfArguments))
            },
        }
    } else if kw == "deg"@ {
        if !all_float_tokens(args, 0) {
            Err(ErrModel::ParseFloat)
        } else if 1 <= args.len() <= 2 {
            arbitrary()
        } else {
            Err(ErrModel::Load(LoadErrorKind::WrongNumberOfArguments))
        }
    } else if is_unmodeled_keyword(kw) {
        arbitrary()
    } else if kw == "p"@ {
        match points_fold(d.positions.len() as int, d.points, args) {
            Err(e) => Err(e),
            Ok(pts) => Ok(GDoc { points: pts, ..d }),
        }
    } else if kw == "l"@ {
        match line_data(d.positions.len() as int, d.tex_coords.len() as int, args) {
            Err(e) => Err(e),
            Ok(l) => Ok(GDoc { lines: d.lines.push(l), ..d }),
        }
    } else if kw == "f"@ || kw == "fo"@ {
        match polygon_data(
            d.positions.len() as int,
            d.tex_coords.len() as int,
            d.normals.len() as int,
            args,
        ) {
            Err(e) => Err(e),
            Ok(p) => Ok(GDoc { polygons: d.polygons.push(p), ..d }),
        }
    } else if kw == "g"@ {
        if args.len() == 1 {
            Ok(GDoc { groups: gb_start(d.groups, args[0], count), ..d })
        } else {
            Err(ErrModel::Load(LoadErrorKind::WrongNumberOfArguments))
        }
    } else if kw == "s"@ {
        if args.len() == 1 && (args[0] == "off"@ || args[0] == "0"@) {
            Ok(GDoc { smoothing_groups: gb_end(d.smoothing_groups, count), ..d })
        } else if args.len() == 1 {
            match parse_usize_spec(args[0]) {
                Err(k) => Err(ErrModel::ParseInt(k)),
                Ok(v) => Ok(
                    GDoc { smoothing_groups: gb_start(d.smoothing_groups, v as usize, count), ..d },
                ),
            }
        } else {
            Err(ErrModel::Load(LoadErrorKind::WrongNumberOfArguments))
        }
    } else if kw == "mg"@ {
        if args.len() == 1 && (args[0] == "off"@ || args[0] == "0"@) {
            Ok(GDoc { merging_groups: gb_end(d.merging_groups, count), ..d })
        } else if args.len() == 1 {
            match parse_usize_spec(args[0]) {
                Err(k) => Err(ErrModel::ParseInt(k)),
                Ok(v) => Ok(
                    GDoc { merging_groups: gb_start(d.merging_groups, v as usize, count), ..d },
                ),
            }
        } else {
            Err(ErrModel::Load(LoadErrorKind::WrongNumberOfArguments))
        }
    } else if kw == "o"@ {
        if args.len() == 0 {
            Ok(GDoc { name: None, ..d })
        } else {
            Ok(GDoc { name: Some(join_spaces(args)), ..d })
        }
    } else if kw == "usemtl"@ {
        if args.len() == 1 {
            Ok(GDoc { meshes: gb_start(d.meshes, args[0], count), ..d })
        } else {
            Err(ErrModel::Load(LoadErrorKind::WrongNumberOfArguments))
        }
    } else if kw == "mtllib"@ {
        Ok(GDoc { material_libraries: d.material_libraries + args, ..d })
    } else {
        Err(ErrModel::Load(LoadErrorKind::UnexpectedStatement))
    }
}

/// The parse state after the given statements, or the first error.
pub open spec fn obj_fold(stmts: Seq<GStmt>) -> Result<GDoc, ErrModel>
    decreases stmts.len(),
{
    if stmts.len() == 0 {
        Ok(gdoc_init())
    } else {
        match obj_fold(stmts.drop_last()) {
            Err(e) => Err(e),
            Ok(d) => obj_step(d, stmts.last()),
        }
    }
}

/// Closes all four groupings at the final element counts.
pub open spec fn gdoc_finish(d: GDoc) -> GDoc {
    let count = gdoc_count(d);
    GDoc {
        groups: gb_end(d.groups, count),
        meshes: gb_end(d.meshes, count),
        smoothing_groups: gb_end(d.smoothing_groups, count),
        merging_groups: gb_end(d.merging_groups, count),
        ..d
    }
}

/// What parsing an OBJ source yields: its statements folded over the
/// initial state, with all groupings closed at the end.
pub open spec fn parse_obj_spec(input: Seq<char>) -> Result<GDoc, ErrModel> {
    match lex_spec(input) {
        Err(e) => Err(ErrModel::Load(LoadErrorKind::BackslashAtEOF)),
        Ok(stmts) => match obj_fold(stmts) {
            Err(e) => Err(e),
            Ok(d) => Ok(gdoc_finish(d)),
        },
    }
}

/// A line element whose indices lie within the attribute arrays.
pub open spec fn gline_wf(l: GLine, plen: int, tlen: int) -> bool {
    match l {
        GLine::P(v) => v.len() >= 2 && forall|i: int| 0 <= i < v.len() ==> #[trigger] v[i] < plen,
        GLine::PT(v) => v.len() >= 2 && forall|i: int|
            0 <= i < v.len() ==> (#[trigger] v[i]).0 < plen && v[i].1 < tlen,
    }
}

/// A polygon element whose indices lie within the attribute arrays.
pub open spec fn gpoly_wf(p: GPolygon, plen: int, tlen: int, nlen: int) -> bool {
    match p {
        GPolygon::P(v) => v.len() >= 3 && forall|i: int|
            0 <= i < v.len() ==> #[trigger] v[i] < plen,
        GPolygon::PT(v) => v.len() >= 3 && forall|i: int|
            0 <= i < v.len() ==> (#[trigger] v[i]).0 < plen && v[i].1 < tlen,
        GPolygon::PN(v) => v.len() >= 3 && forall|i: int|
            0 <= i < v.len() ==> (#[trigger] v[i]).0 < plen && v[i].1 < nlen,
        GPolygon::PTN(v) => v.len() >= 3 && forall|i: int|
            0 <= i < v.len() ==> (#[trigger] v[i]).0 < plen && v[i].1 < tlen && v[i].2 < nlen,
    }
}

/// A polygon whose indices lie within the attribute arrays, whatever its
/// reference count.
pub open spec fn gpoly_in_bounds(p: GPolygon, plen: int, tlen: int, nlen: int) -> bool {
    match p {
        GPolygon::P(v) => forall|i: int| 0 <= i < v.len() ==> #[trigger] v[i] < plen,
        GPolygon::PT(v) => forall|i: int|
            0 <= i < v.len() ==> (#[trigger] v[i]).0 < plen && v[i].1 < tlen,
        GPolygon::PN(v) => forall|i: int|
            0 <= i < v.len() ==> (#[trigger] v[i]).0 < plen && v[i].1 < nlen,
        GPolygon::PTN(v) => forall|i: int|
            0 <= i < v.len() ==> (#[trigger] v[i]).0 < plen && v[i].1 < tlen && v[i].2 < nlen,
    }
}

/// Every polygon's indices lie within the attribute arrays.
pub open spec fn polys_in_bounds(plen: int, tlen: int, nlen: int, polys: Seq<GPolygon>) -> bool {
    forall|i: int| 0 <= i < polys.len() ==> gpoly_in_bounds(#[trigger] polys[i], plen, tlen, nlen)
}

/// A well-formed polygon is in bounds.
pub proof fn lemma_gpoly_wf_in_bounds(p: GPolygon, plen: int, tlen: int, nlen: int)
    requires
        gpoly_wf(p, plen, tlen, nlen),
    ensures
        gpoly_in_bounds(p, plen, tlen, nlen),
{
}

/// Every list of the state fits a vector.
pub open spec fn gdoc_bounded(d: GDoc) -> bool {
    &&& d.positions.len() <= usize::MAX
    &&& d.tex_coords.len() <= usize::MAX
    &&& d.normals.len() <= usize::MAX
    &&& d.param_vertices.len() <= usize::MAX
    &&& d.points.len() <= usize::MAX
    &&& d.lines.len() <= usize::MAX
    &&& d.polygons.len() <= usize::MAX
}

/// A well-formed parse state: bounded lists, every element reference
/// within the attribute arrays, and all four groupings well-formed at the
/// current element counts.
pub open spec fn gdoc_wf(d: GDoc) -> bool {
    &&& gdoc_bounded(d)
    &&& forall|i: int| 0 <= i < d.points.len() ==> #[trigger] d.points[i] < d.positions.len()
    &&& forall|i: int|
        0 <= i < d.lines.len() ==> gline_wf(
            #[trigger] d.lines[i],
            d.positions.len() as int,
            d.tex_coords.len() as int,
        )
    &&& forall|i: int|
        0 <= i < d.polygons.len() ==> gpoly_wf(
            #[trigger] d.polygons[i],
            d.positions.len() as int,
            d.tex_coords.len() as int,
            d.normals.len() as int,
        )
    &&& gbuilder_wf(d.groups, gdoc_count(d))
    &&& gbuilder_wf(d.meshes, gdoc_count(d))
    &&& gbuilder_wf(d.smoothing_groups, gdoc_count(d))
    &&& gbuilder_wf(d.merging_groups, gdoc_count(d))
}

/// The initial parse state is well-formed.
pub proof fn lemma_gdoc_init_wf()
    ensures
        gdoc_wf(gdoc_init()),
{
    let d = gdoc_init();
    lemma_ranges_open_wf(Seq::<Range>::empty(), 0, 0);
    assert(ggroup_new().points =~= Seq::<Range>::empty());
    assert(ggroup_new().lines =~= Seq::<Range>::empty());
    assert(ggroup_new().polygons =~= Seq::<Range>::empty());
    lemma_find_key_unique(d.groups.result, "default"@, 0);
    lemma_find_key_unique(d.meshes.result, ""@, 0);
}

/// A successful position-only collection resolves every argument in
/// bounds.
proof fn lemma_collect_p_bounds(plen: int, args: Seq<Seq<char>>)
    requires
        collect_p(plen, args) is Ok,
    ensures
        collect_p(plen, args)->Ok_0.len() == args.len(),
        forall|i: int|
            0 <= i < args.len() ==> #[trigger] collect_p(plen, args)->Ok_0[i] < plen,
    decreases args.len(),
{
    if args.len() > 0 {
        lemma_collect_p_bounds(plen, args.skip(1));
        let parts = split_slash(args[0]);
        let p = try_index_spec(plen, parts[0])->Ok_0;
        let rest = collect_p(plen, args.skip(1))->Ok_0;
        let whole = collect_p(plen, args)->Ok_0;
        assert(whole == seq![p as usize] + rest);
        assert forall|i: int| 0 <= i < args.len() implies #[trigger] whole[i] < plen by {
            if i == 0 {
                assert(whole[0] == p as usize);
            } else {
                assert(whole[i] == rest[i - 1]);
            }
        }
    }
}

/// A successful `p/t` collection resolves every argument in bounds.
proof fn lemma_collect_pt_bounds(plen: int, tlen: int, args: Seq<Seq<char>>)
    requires
        collect_pt(plen, tlen, args) is Ok,
    ensures
        collect_pt(plen, tlen, args)->Ok_0.len() == args.len(),
        forall|i: int|
            0 <= i < args.len() ==> (#[trigger] collect_pt(plen, tlen, args)->Ok_0[i]).0 < plen
                && collect_pt(plen, tlen, args)->Ok_0[i].1 < tlen,
    decreases args.len(),
{
    if args.len() > 0 {
        lemma_collect_pt_bounds(plen, tlen, args.skip(1));
        let parts = split_slash(args[0]);
        let p = try_index_spec(plen, parts[0])->Ok_0;
        let t = try_index_spec(tlen, parts[1])->Ok_0;
        let rest = collect_pt(plen, tlen, args.skip(1))->Ok_0;
        let whole = collect_pt(plen, tlen, args)->Ok_0;
        assert(whole == seq![(p as usize, t as usize)] + rest);
        assert forall|i: int|
            0 <= i < args.len() implies (#[trigger] whole[i]).0 < plen && whole[i].1 < tlen by {
            if i == 0 {
                assert(whole[0] == (p as usize, t as usize));
            } else {
                assert(whole[i] == rest[i - 1]);
            }
        }
    }
}

/// A successful `p//n` collection resolves every argument in bounds.
proof fn lemma_collect_pn_bounds(plen: int, nlen: int, args: Seq<Seq<char>>)
    requires
        collect_pn(plen, nlen, args) is Ok,
    ensures
        collect_pn(plen, nlen, args)->Ok_0.len() == args.len(),
        forall|i: int|
            0 <= i < args.len() ==> (#[trigger] collect_pn(plen, nlen, args)->Ok_0[i]).0 < plen
                && collect_pn(plen, nlen, args)->Ok_0[i].1 < nlen,
    decreases args.len(),
{
    if args.len() > 0 {
        lemma_collect_pn_bounds(plen, nlen, args.skip(1));
        let parts = split_slash(args[0]);
        let p = try_index_spec(plen, parts[0])->Ok_0;
        let n = try_index_spec(nlen, parts[2])->Ok_0;
        let rest = collect_pn(plen, nlen, args.skip(1))->Ok_0;
        let whole = collect_pn(plen, nlen, args)->Ok_0;
        assert(whole == seq![(p as usize, n as usize)] + rest);
        assert forall|i: int|
            0 <= i < args.len() implies (#[trigger] whole[i]).0 < plen && whole[i].1 < nlen by {
            if i == 0 {
                assert(whole[0] == (p as usize, n as usize));
            } else {
                assert(whole[i] == rest[i - 1]);
            }
        }
    }
}

/// A successful `p/t/n` collection resolves every argument in bounds.
proof fn lemma_collect_ptn_bounds(plen: int, tlen: int, nlen: int, args: Seq<Seq<char>>)
    requires
        collect_ptn(plen, tlen, nlen, args) is Ok,
    ensures
        collect_ptn(plen, tlen, nlen, args)->Ok_0.len() == args.len(),
        forall|i: int|
            0 <= i < args.len() ==> (#[trigger] collect_ptn(plen, tlen, nlen, args)->Ok_0[i]).0
                < plen && collect_ptn(plen, tlen, nlen, args)->Ok_0[i].1 < tlen && collect_ptn(
                plen,
                tlen,
                nlen,
                args,
            )->Ok_0[i].2 < nlen,
    decreases args.len(),
{
    if args.len() > 0 {
        lemma_collect_ptn_bounds(plen, tlen, nlen, args.skip(1));
        let parts = split_slash(args[0]);
        let p = try_index_spec(plen, parts[0])->Ok_0;
        let t = try_index_spec(tlen, parts[1])->Ok_0;
        let n = try_index_spec(nlen, parts[2])->Ok_0;
        let rest = collect_ptn(plen, tlen, nlen, args.skip(1))->Ok_0;
        let whole = collect_ptn(plen, tlen, nlen, args)->Ok_0;
        assert(whole == seq![(p as usize, t as usize, n as usize)] + rest);
        assert forall|i: int|
            0 <= i < args.len() implies (#[trigger] whole[i]).0 < plen && whole[i].1 < tlen
                && whole[i].2 < nlen by {
            if i == 0 {
                assert(whole[0] == (p as usize, t as usize, n as usize));
            } else {
                assert(whole[i] == rest[i - 1]);
            }
        }
    }
}

/// A successful point fold keeps the old points and adds in-bounds ones.
proof fn lemma_points_fold_bounds(plen: int, points: Seq<usize>, args: Seq<Seq<char>>)
    requires
        points_fold(plen, points, args) is Ok,
        forall|i: int| 0 <= i < points.len() ==> #[trigger] points[i] < plen,
    ensures
        points_fold(plen, points, args)->Ok_0.len() == points.len() + args.len(),
        forall|i: int|
            0 <= i < points.len() + args.len() ==> #[trigger] points_fold(
                plen,
                points,
                args,
            )->Ok_0[i] < plen,
    decreases args.len(),
{
    if args.len() > 0 {
        let ix = try_index_spec(plen, args[0])->Ok_0;
        let pushed = points.push(ix as usize);
        assert forall|i: int| 0 <= i < pushed.len() implies #[trigger] pushed[i] < plen by {
            if i < points.len() {
                assert(pushed[i] == points[i]);
            } else {
                assert(pushed[i] == ix as usize);
            }
        }
        lemma_points_fold_bounds(plen, pushed, args.skip(1));
    }
}

/// A step of the fold keeps the state well-formed.
pub proof fn lemma_obj_step_wf(d: GDoc, st: GStmt)
    requires
        gdoc_wf(d),
        !stmt_unsupported(st),
        obj_step(d, st) is Ok,
        gdoc_bounded(obj_step(d, st)->Ok_0),
    ensures
        gdoc_wf(obj_step(d, st)->Ok_0),
{
    let kw = st.keyword;
    let args = st.args;
    let count = gdoc_count(d);
    let d2 = obj_step(d, st)->Ok_0;
    let count2 = gdoc_count(d2);
    if kw == "v"@ || kw == "vt"@ || kw == "vn"@ || kw == "vp"@ {
        assert(count2 == count);
    } else if kw == "cstype"@ || kw == "deg"@ || is_unmodeled_keyword(kw) {
        assert(false);
    } else if kw == "p"@ {
        lemma_points_fold_bounds(d.positions.len() as int, d.points, args);
        assert(count_le(count, count2));
        lemma_gbuilder_wf_mono(d.groups, count, count2);
        lemma_gbuilder_wf_mono(d.meshes, count, count2);
        lemma_gbuilder_wf_mono(d.smoothing_groups, count, count2);
        lemma_gbuilder_wf_mono(d.merging_groups, count, count2);
    } else if kw == "l"@ {
        let plen = d.positions.len() as int;
        let tlen = d.tex_coords.len() as int;
        let parts = split_slash(args[0]);
        if parts.len() == 1 {
            lemma_collect_p_bounds(plen, args);
        } else {
            lemma_collect_pt_bounds(plen, tlen, args);
        }
        assert(d2.lines.last() == line_data(plen, tlen, args)->Ok_0);
        assert forall|i: int| 0 <= i < d2.lines.len() implies gline_wf(
            #[trigger] d2.lines[i],
            plen,
            tlen,
        ) by {
            if i < d.lines.len() {
                assert(d2.lines[i] == d.lines[i]);
            }
        }
        assert(count_le(count, count2));
        lemma_gbuilder_wf_mono(d.groups, count, count2);
        lemma_gbuilder_wf_mono(d.meshes, count, count2);
        lemma_gbuilder_wf_mono(d.smoothing_groups, count, count2);
        lemma_gbuilder_wf_mono(d.merging_groups, count, count2);
    } else if kw == "f"@ || kw == "fo"@ {
        let plen = d.positions.len() as int;
        let tlen = d.tex_coords.len() as int;
        let nlen = d.normals.len() as int;
        let parts = split_slash(args[0]);
        if parts.len() == 1 {
            lemma_collect_p_bounds(plen, args);
        } else if parts.len() == 2 {
            lemma_collect_pt_bounds(plen, tlen, args);
        } else if parts.len() == 3 && parts[1].len() == 0 {
            lemma_collect_pn_bounds(plen, nlen, args);
        } else {
            lemma_collect_ptn_bounds(plen, tlen, nlen, args);
        }
        assert(d2.polygons.last() == polygon_data(plen, tlen, nlen, args)->Ok_0);
        assert forall|i: int| 0 <= i < d2.polygons.len() implies gpoly_wf(
            #[trigger] d2.polygons[i],
            plen,
            tlen,
            nlen,
        ) by {
            if i < d.polygons.len() {
                assert(d2.polygons[i] == d.polygons[i]);
            }
        }
        assert(count_le(count, count2));
        lemma_gbuilder_wf_mono(d.groups, count, count2);
        lemma_gbuilder_wf_mono(d.meshes, count, count2);
        lemma_gbuilder_wf_mono(d.smoothing_groups, count, count2);
        lemma_gbuilder_wf_mono(d.merging_groups, count, count2);
    } else if kw == "g"@ {
        lemma_gb_start_wf(d.groups, args[0], count);
    } else if kw == "s"@ {
        if args.len() == 1 && (args[0] == "off"@ || args[0] == "0"@) {
            lemma_gb_close_current_wf(d.smoothing_groups, count);
        } else {
            let v = parse_usize_spec(args[0])->Ok_0;
            lemma_gb_start_wf(d.smoothing_groups, v as usize, count);
        }
    } else if kw == "mg"@ {
        if args.len() == 1 && (args[0] == "off"@ || args[0] == "0"@) {
            lemma_gb_close_current_wf(d.merging_groups, count);
        } else {
            let v = parse_usize_spec(args[0])->Ok_0;
            lemma_gb_start_wf(d.merging_groups, v as usize, count);
        }
    } else if kw == "usemtl"@ {
        lemma_gb_start_wf(d.meshes, args[0], count);
    } else {
    }
}

/// The model of one position record.
pub open spec fn f4_model(t: (String, String, String, String)) -> G4 {
    (t.0@, t.1@, t.2@, t.3@)
}

/// The models of the position records.
pub open spec fn f4s_model(v: Seq<(String, String, String, String)>) -> Seq<G4> {
    v.map(|i: int, t: (String, String, String, String)| f4_model(t))
}

/// The model of one three-component record.
pub open spec fn f3_model(t: (String, String, String)) -> G3 {
    (t.0@, t.1@, t.2@)
}

/// The models of the three-component records.
pub open spec fn f3s_model(v: Seq<(String, String, String)>) -> Seq<G3> {
    v.map(|i: int, t: (String, String, String)| f3_model(t))
}

/// The running state of a parse: the document under construction and the
/// four group builders.
struct DocState {
    name: Option<String>,
    material_libraries: Vec<String>,
    positions: Vec<(String, String, String, String)>,
    tex_coords: Vec<(String, String, String)>,
    normals: Vec<(String, String, String)>,
    param_vertices: Vec<(String, String, String)>,
    points: Vec<Point>,
    lines: Vec<Line>,
    polygons: Vec<Polygon>,
    group_builder: GroupBuilder,
    mesh_builder: GroupBuilder,
    smoothing_builder: IdGroupBuilder,
    merging_builder: IdGroupBuilder,
}

impl DocState {
    /// The state's model.
    spec fn model(&self) -> GDoc {
        GDoc {
            name: match self.name {
                Some(ref s) => Some(s@),
                None => None,
            },
            material_libraries: strs_model(self.material_libraries@),
            positions: f4s_model(self.positions@),
            tex_coords: f3s_model(self.tex_coords@),
            normals: f3s_model(self.normals@),
            param_vertices: f3s_model(self.param_vertices@),
            points: self.points@,
            lines: line_elems_model(self.lines@),
            polygons: polys_model(self.polygons@),
            groups: self.group_builder.model(),
            meshes: self.mesh_builder.model(),
            smoothing_groups: self.smoothing_builder.model(),
            merging_groups: self.merging_builder.model(),
        }
    }
}

/// Appends each argument to `dst` as a string.
fn push_all_strings(dst: &mut Vec<String>, args: &Vec<Vec<char>>)
    ensures
        strs_model(final(dst)@) == strs_model(old(dst)@) + lines_model(args@),
{
    let ghost am = lines_model(args@);
    let mut i: usize = 0;
    proof {
        assert(am.take(0) =~= Seq::<Seq<char>>::empty());
        assert(strs_model(dst@) =~= strs_model(old(dst)@) + am.take(0));
    }
    while i < args.len()
        invariant
            i <= args@.len(),
            am == lines_model(args@),
            strs_model(dst@) == strs_model(old(dst)@) + am.take(i as int),
        decreases args@.len() - i,
    {
        let s = chars_to_string(&args[i]);
        let ghost d0 = dst@;
        dst.push(s);
        proof {
            assert(am[i as int] == args@[i as int]@);
            assert forall|k: int|
                0 <= k < dst@.len() implies strs_model(dst@)[k] == strs_model(d0).push(s@)[k] by {
                if k < d0.len() {
                    assert(dst@[k] == d0[k]);
                    assert(strs_model(d0)[k] == d0[k]@);
                } else {
                    assert(dst@[k] == s);
                }
            }
            assert(strs_model(dst@) =~= strs_model(d0).push(s@));
            assert(am.take(i + 1 as int) =~= am.take(i as int).push(am[i as int]));
            assert(strs_model(old(dst)@) + am.take(i as int).push(am[i as int]) =~= (strs_model(
                old(dst)@,
            ) + am.take(i as int)).push(am[i as int]));
        }
        i += 1;
    }
    proof {
        assert(am.take(args@.len() as int) =~= am);
    }
}

/// Resolves each argument against the positions and appends it to the
/// point list.
fn push_points(
    positions: &Vec<(String, String, String, String)>,
    points: &mut Vec<Point>,
    args: &Vec<Vec<char>>,
) -> (r: Result<(), ObjError>)
    ensures
        match r {
            Ok(()) => points_fold(positions@.len() as int, old(points)@, lines_model(args@))
                == Ok::<Seq<usize>, ErrModel>(final(points)@),
            Err(e) => points_fold(positions@.len() as int, old(points)@, lines_model(args@))
                == Err::<Seq<usize>, ErrModel>(err_model(e)),
        },
{
    let ghost am = lines_model(args@);
    let ghost plen = positions@.len() as int;
    let mut i: usize = 0;
    proof {
        assert(am.skip(0) =~= am);
    }
    loop
        invariant
            i <= args@.len(),
            am == lines_model(args@),
            plen == positions@.len() as int,
            points_fold(plen, old(points)@, am) == points_fold(
                plen,
                points@,
                am.skip(i as int),
            ),
        decreases args@.len() - i,
    {
        if i == args.len() {
            proof {
                assert(am.skip(i as int) =~= Seq::<Seq<char>>::empty());
            }
            return Ok(());
        }
        proof {
            assert(am.skip(i as int)[0] == am[i as int]);
            assert(am[i as int] == args@[i as int]@);
            assert(am.skip(i as int).skip(1) =~= am.skip(i + 1));
        }
        match try_index(positions, &args[i]) {
            Err(e) => {
                return Err(e);
            },
            Ok(ix) => {
                points.push(ix);
            },
        }
        i += 1;
    }
}

/// Whether `kw` is a keyword the library recognizes but does not model.
fn is_unmodeled(kw: &Vec<char>) -> (b: bool)
    ensures
        b == is_unmodeled_keyword(kw@),
{
    chars_eq_str(kw, "bmat") || chars_eq_str(kw, "step") || chars_eq_str(kw, "curv")
        || chars_eq_str(kw, "curv2") || chars_eq_str(kw, "surf") || chars_eq_str(kw, "parm")
        || chars_eq_str(kw, "trim") || chars_eq_str(kw, "hole") || chars_eq_str(kw, "scrv")
        || chars_eq_str(kw, "sp") || chars_eq_str(kw, "end") || chars_eq_str(kw, "con")
        || chars_eq_str(kw, "bevel") || chars_eq_str(kw, "c_interp") || chars_eq_str(
        kw,
        "d_interp",
    ) || chars_eq_str(kw, "lod") || chars_eq_str(kw, "shadow_obj") || chars_eq_str(
        kw,
        "trace_obj",
    ) || chars_eq_str(kw, "ctech") || chars_eq_str(kw, "stech")
}

/// Every list of the state fits a vector, because each is one.
proof fn lemma_docstate_bounded(s: &DocState)
    ensures
        gdoc_bounded(s.model()),
{
    broadcast use vstd::std_specs::vec::axiom_spec_len;

    assert(vstd::std_specs::vec::spec_vec_len(&s.positions) <= usize::MAX);
    assert(vstd::std_specs::vec::spec_vec_len(&s.tex_coords) <= usize::MAX);
    assert(vstd::std_specs::vec::spec_vec_len(&s.normals) <= usize::MAX);
    assert(vstd::std_specs::vec::spec_vec_len(&s.param_vertices) <= usize::MAX);
    assert(vstd::std_specs::vec::spec_vec_len(&s.points) <= usize::MAX);
    assert(vstd::std_specs::vec::spec_vec_len(&s.lines) <= usize::MAX);
    assert(vstd::std_specs::vec::spec_vec_len(&s.polygons) <= usize::MAX);
}

/// Applies one statement to the parse state, as `obj_step` describes.
#[verifier::rlimit(50)]
fn apply_statement(st: &mut DocState, stmt: &Statement) -> (r: Result<(), ObjError>)
    requires
        gdoc_wf(old(st).model()),
        !stmt_unsupported(stmt.model()),
    ensures
        match r {
            Ok(()) => obj_step(old(st).model(), stmt.model()) == Ok::<GDoc, ErrModel>(
                final(st).model(),
            ) && gdoc_wf(final(st).model()),
            Err(e) => obj_step(old(st).model(), stmt.model()) == Err::<GDoc, ErrModel>(
                err_model(e),
            ),
        },
{
    let ghost d0 = old(st).model();
    let ghost gs = stmt.model();
    let kw = &stmt.keyword;
    let args = &stmt.args;
    proof {
        assert(gs.args =~= lines_model(stmt.args@));
    }
    if chars_eq_str(kw, "v") {
        match parse_args(args, 0) {
            Err(e) => {
                proof {
                    assert(lines_model(args@).skip(0) =~= lines_model(args@));
                }
                return Err(e);
            },
            Ok(toks) => {
                proof {
                    assert(lines_model(args@).skip(0) =~= lines_model(args@));
                }
                if toks.len() == 4 {
                    let t = (toks[0].clone(), toks[1].clone(), toks[2].clone(), toks[3].clone());
                    let ghost p0 = st.positions@;
                    st.positions.push(t);
                    proof {
                        assert(strs_model(toks@)[0] == toks@[0]@);
                        assert(strs_model(toks@)[1] == toks@[1]@);
                        assert(strs_model(toks@)[2] == toks@[2]@);
                        assert(strs_model(toks@)[3] == toks@[3]@);
                        let gt = (gs.args[0], gs.args[1], gs.args[2], gs.args[3]);
                        assert forall|k: int|
                            0 <= k < st.positions@.len() implies f4s_model(st.positions@)[k]
                            == f4s_model(p0).push(gt)[k] by {
                            if k < p0.len() {
                                assert(st.positions@[k] == p0[k]);
                                assert(f4s_model(p0)[k] == f4_model(p0[k]));
                            } else {
                                assert(st.positions@[k] == t);
                            }
                        }
                        assert(f4s_model(st.positions@) =~= f4s_model(p0).push(gt));
                        lemma_docstate_bounded(st);
                        lemma_obj_step_wf(d0, gs);
                    }
                    return Ok(());
                } else if toks.len() == 3 {
                    let t = (toks[0].clone(), toks[1].clone(), toks[2].clone(), "1".to_owned());
                    let ghost p0 = st.positions@;
                    st.positions.push(t);
                    proof {
                        assert(strs_model(toks@)[0] == toks@[0]@);
                        assert(strs_model(toks@)[1] == toks@[1]@);
                        assert(strs_model(toks@)[2] == toks@[2]@);
                        let gt = (gs.args[0], gs.args[1], gs.args[2], "1"@);
                        assert forall|k: int|
                            0 <= k < st.positions@.len() implies f4s_model(st.positions@)[k]
                            == f4s_model(p0).push(gt)[k] by {
                            if k < p0.len() {
                                assert(st.positions@[k] == p0[k]);
                                assert(f4s_model(p0)[k] == f4_model(p0[k]));
                            } else {
                                assert(st.positions@[k] == t);
                            }
                        }
                        assert(f4s_model(st.positions@) =~= f4s_model(p0).push(gt));
                        lemma_docstate_bounded(st);
                        lemma_obj_step_wf(d0, gs);
                    }
                    return Ok(());
                } else {
                    return Err(
                        ObjError::Load(
                            LoadError::new(
                                LoadErrorKind::WrongNumberOfArguments,
                                "Expected 3 or 4 arguments",
                            ),
                        ),
                    );
                }
            },
        }
    } else if chars_eq_str(kw, "vt") {
        match parse_args(args, 0) {
            Err(e) => {
                proof {
                    assert(lines_model(args@).skip(0) =~= lines_model(args@));
                }
                return Err(e);
            },
            Ok(toks) => {
                proof {
                    assert(lines_model(args@).skip(0) =~= lines_model(args@));
                }
                let t: (String, String, String);
                let ghost gt: G3;
                if toks.len() == 3 {
                    t = (toks[0].clone(), toks[1].clone(), toks[2].clone());
                    proof {
                        gt = (gs.args[0], gs.args[1], gs.args[2]);
                    }
                } else if toks.len() == 2 {
                    t = (toks[0].clone(), toks[1].clone(), "0".to_owned());
                    proof {
                        gt = (gs.args[0], gs.args[1], "0"@);
                    }
                } else if toks.len() == 1 {
                    t = (toks[0].clone(), "0".to_owned(), "0".to_owned());
                    proof {
                        gt = (gs.args[0], "0"@, "0"@);
                    }
                } else {
                    return Err(
                        ObjError::Load(
                            LoadError::new(
                                LoadErrorKind::WrongNumberOfArguments,
                                "Expected 1, 2 or 3 arguments",
                            ),
                        ),
                    );
                }
                let ghost p0 = st.tex_coords@;
                st.tex_coords.push(t);
                proof {
                    assert(strs_model(toks@)[0] == toks@[0]@);
                    if toks@.len() >= 2 {
                        assert(strs_model(toks@)[1] == toks@[1]@);
                    }
                    if toks@.len() >= 3 {
                        assert(strs_model(toks@)[2] == toks@[2]@);
                    }
                    assert forall|k: int|
                        0 <= k < st.tex_coords@.len() implies f3s_model(st.tex_coords@)[k]
                        == f3s_model(p0).push(gt)[k] by {
                        if k < p0.len() {
                            assert(st.tex_coords@[k] == p0[k]);
                            assert(f3s_model(p0)[k] == f3_model(p0[k]));
                        } else {
                            assert(st.tex_coords@[k] == t);
                        }
                    }
                    assert(f3s_model(st.tex_coords@) =~= f3s_model(p0).push(gt));
                    lemma_docstate_bounded(st);
                    lemma_obj_step_wf(d0, gs);
                }
                return Ok(());
            },
        }
    } else if chars_eq_str(kw, "vn") {
        match parse_args(args, 0) {
            Err(e) => {
                proof {
                    assert(lines_model(args@).skip(0) =~= lines_model(args@));
                }
                return Err(e);
            },
            Ok(toks) => {
                proof {
                    assert(lines_model(args@).skip(0) =~= lines_model(args@));
                }
                if toks.len() == 3 {
                    let t = (toks[0].clone(), toks[1].clone(), toks[2].clone());
                    let ghost gt = (gs.args[0], gs.args[1], gs.args[2]);
                    let ghost p0 = st.normals@;
                    st.normals.push(t);
                    proof {
                        assert(strs_model(toks@)[0] == toks@[0]@);
                        assert(strs_model(toks@)[1] == toks@[1]@);
                        assert(strs_model(toks@)[2] == toks@[2]@);
                        assert forall|k: int|
                            0 <= k < st.normals@.len() implies f3s_model(st.normals@)[k]
                            == f3s_model(p0).push(gt)[k] by {
                            if k < p0.len() {
                                assert(st.normals@[k] == p0[k]);
                                assert(f3s_model(p0)[k] == f3_model(p0[k]));
                            } else {
                                assert(st.normals@[k] == t);
                            }
                        }
                        assert(f3s_model(st.normals@) =~= f3s_model(p0).push(gt));
                        lemma_docstate_bounded(st);
                        lemma_obj_step_wf(d0, gs);
                    }
                    return Ok(());
                } else {
                    return Err(
                        ObjError::Load(
                            LoadError::new(
                                LoadErrorKind::WrongNumberOfArguments,
                                "Expected 3 arguments",
                            ),
                        ),
                    );
                }
            },
        }
    } else if chars_eq_str(kw, "vp") {
        match parse_args(args, 0) {
            Err(e) => {
                proof {
                    assert(lines_model(args@).skip(0) =~= lines_model(args@));
                }
                return Err(e);
            },
            Ok(toks) => {
                proof {
                    assert(lines_model(args@).skip(0) =~= lines_model(args@));
                }
                let t: (String, String, String);
                let ghost gt: G3;
                if toks.len() == 3 {
                    t = (toks[0].clone(), toks[1].clone(), toks[2].clone());
                    proof {
                        gt = (gs.args[0], gs.args[1], gs.args[2]);
                    }
                } else if toks.len() == 2 {
                    t = (toks[0].clone(), toks[1].clone(), "1".to_owned());
                    proof {
                        gt = (gs.args[0], gs.args[1], "1"@);
                    }
                } else if toks.len() == 1 {
                    t = (toks[0].clone(), "0".to_owned(), "1".to_owned());
                    proof {
                        gt = (gs.args[0], "0"@, "1"@);
                    }
                } else {
                    return Err(
                        ObjError::Load(
                            LoadError::new(
                                LoadErrorKind::WrongNumberOfArguments,
                                "Expected 1, 2 or 3 arguments",
                            ),
                        ),
                    );
                }
                let ghost p0 = st.param_vertices@;
                st.param_vertices.push(t);
                proof {
                    assert(strs_model(toks@)[0] == toks@[0]@);
                    if toks@.len() >= 2 {
                        assert(strs_model(toks@)[1] == toks@[1]@);
                    }
                    if toks@.len() >= 3 {
                        assert(strs_model(toks@)[2] == toks@[2]@);
                    }
                    assert forall|k: int|
                        0 <= k < st.param_vertices@.len() implies f3s_model(st.param_vertices@)[k]
                        == f3s_model(p0).push(gt)[k] by {
                        if k < p0.len() {
                            assert(st.param_vertices@[k] == p0[k]);
                            assert(f3s_model(p0)[k] == f3_model(p0[k]));
                        } else {
                            assert(st.param_vertices@[k] == t);
                        }
                    }
                    assert(f3s_model(st.param_vertices@) =~= f3s_model(p0).push(gt));
                    lemma_docstate_bounded(st);
                    lemma_obj_step_wf(d0, gs);
                }
                return Ok(());
            },
        }
    } else if chars_eq_str(kw, "cstype") {
        let ty: &Vec<char> = if args.len() == 2 && chars_eq_str(&args[0], "rat") {
            proof {
                assert(gs.args[0] == args@[0]@);
                assert(gs.args[1] == args@[1]@);
            }
            &args[1]
        } else if args.len() == 1 {
            proof {
                assert(gs.args[0] == args@[0]@);
            }
            &args[0]
        } else {
            return Err(
                ObjError::Load(
                    LoadError::new(
                        LoadErrorKind::WrongTypeOfArguments,
                        "Expected 'rat xxx' or 'xxx' format",
                    ),
                ),
            );
        };
        if chars_eq_str(ty, "bmatrix") || chars_eq_str(ty, "bezier") || chars_eq_str(ty, "bspline")
            || chars_eq_str(ty, "cardinal") || chars_eq_str(ty, "taylor") {
            proof {
                assert(stmt_unsupported(gs));
                assert(false);
            }
            return vstd::pervasive::unreached();
        } else {
            return Err(
                ObjError::Load(
                    LoadError::new(
                        LoadErrorKind::WrongTypeOfArguments,
                        "Expected one of 'bmatrix', 'bezier', 'bspline', 'cardinal' and 'taylor'",
                    ),
                ),
            );
        }
    } else if chars_eq_str(kw, "deg") {
        match parse_args(args, 0) {
            Err(e) => {
                proof {
                    assert(lines_model(args@).skip(0) =~= lines_model(args@));
                }
                return Err(e);
            },
            Ok(toks) => {
                proof {
                    assert(lines_model(args@).skip(0) =~= lines_model(args@));
                }
                if toks.len() == 1 || toks.len() == 2 {
                    proof {
                        assert(stmt_unsupported(gs));
                        assert(false);
                    }
                    return vstd::pervasive::unreached();
                }
                return Err(
                    ObjError::Load(
                        LoadError::new(
                            LoadErrorKind::WrongNumberOfArguments,
                            "Expected 1 or 2 arguments",
                        ),
                    ),
                );
            },
        }
    } else if is_unmodeled(kw) {
        proof {
            assert(stmt_unsupported(gs));
            assert(false);
        }
        return vstd::pervasive::unreached();
    } else if chars_eq_str(kw, "p") {
        match push_points(&st.positions, &mut st.points, args) {
            Err(e) => {
                return Err(e);
            },
            Ok(()) => {
                proof {
                    lemma_docstate_bounded(st);
                    lemma_obj_step_wf(d0, gs);
                }
                return Ok(());
            },
        }
    } else if chars_eq_str(kw, "l") {
        if args.len() < 2 {
            return Err(
                ObjError::Load(
                    LoadError::new(
                        LoadErrorKind::WrongNumberOfArguments,
                        "Expected at least 2 arguments",
                    ),
                ),
            );
        }
        proof {
            assert(gs.args[0] == args@[0]@);
        }
        let parts = split_vertex_group(&args[0]);
        let element: Line;
        if parts.len() == 1 {
            match gather_p(&st.positions, args) {
                Err(e) => {
                    return Err(e);
                },
                Ok(v) => {
                    element = Line::P(v);
                },
            }
        } else if parts.len() == 2 {
            match gather_pt(&st.positions, &st.tex_coords, args) {
                Err(e) => {
                    return Err(e);
                },
                Ok(v) => {
                    element = Line::PT(v);
                },
            }
        } else {
            return Err(
                ObjError::Load(
                    LoadError::new(
                        LoadErrorKind::WrongTypeOfArguments,
                        "Unexpected vertex format, expected `#`, or `#/#`",
                    ),
                ),
            );
        }
        let ghost l0 = st.lines@;
        let ghost ge = line_data(d0.positions.len() as int, d0.tex_coords.len() as int, gs.args)
            ->Ok_0;
        st.lines.push(element);
        proof {
            assert(line_model(element) == ge);
            assert forall|k: int|
                0 <= k < st.lines@.len() implies line_elems_model(st.lines@)[k]
                == line_elems_model(l0).push(ge)[k] by {
                if k < l0.len() {
                    assert(st.lines@[k] == l0[k]);
                    assert(line_elems_model(l0)[k] == line_model(l0[k]));
                } else {
                    assert(st.lines@[k] == element);
                }
            }
            assert(line_elems_model(st.lines@) =~= line_elems_model(l0).push(ge));
            lemma_docstate_bounded(st);
            lemma_obj_step_wf(d0, gs);
        }
        return Ok(());
    } else if chars_eq_str(kw, "f") || chars_eq_str(kw, "fo") {
        if args.len() < 3 {
            return Err(
                ObjError::Load(
                    LoadError::new(
                        LoadErrorKind::WrongNumberOfArguments,
                        "Expected at least 3 arguments",
                    ),
                ),
            );
        }
        proof {
            assert(gs.args[0] == args@[0]@);
        }
        let parts = split_vertex_group(&args[0]);
        let element: Polygon;
        if parts.len() == 1 {
            match gather_p(&st.positions, args) {
                Err(e) => {
                    return Err(e);
                },
                Ok(v) => {
                    element = Polygon::P(v);
                },
            }
        } else if parts.len() == 2 {
            match gather_pt(&st.positions, &st.tex_coords, args) {
                Err(e) => {
                    return Err(e);
                },
                Ok(v) => {
                    element = Polygon::PT(v);
                },
            }
        } else if parts.len() == 3 && parts[0 + 1].len() == 0 {
            proof {
                assert(lines_model(parts@)[1] == parts@[1]@);
            }
            match gather_pn(&st.positions, &st.normals, args) {
                Err(e) => {
                    return Err(e);
                },
                Ok(v) => {
                    element = Polygon::PN(v);
                },
            }
        } else if parts.len() == 3 {
            proof {
                assert(lines_model(parts@)[1] == parts@[1]@);
            }
            match gather_ptn(&st.positions, &st.tex_coords, &st.normals, args) {
                Err(e) => {
                    return Err(e);
                },
                Ok(v) => {
                    element = Polygon::PTN(v);
                },
            }
        } else {
            return Err(
                ObjError::Load(
                    LoadError::new(
                        LoadErrorKind::WrongTypeOfArguments,
                        "Unexpected vertex format, expected `#`, `#/#`, `#//#`, or `#/#/#`",
                    ),
                ),
            );
        }
        let ghost l0 = st.polygons@;
        let ghost ge = polygon_data(
            d0.positions.len() as int,
            d0.tex_coords.len() as int,
            d0.normals.len() as int,
            gs.args,
        )->Ok_0;
        st.polygons.push(element);
        proof {
            assert(poly_model(element) == ge);
            assert forall|k: int|
                0 <= k < st.polygons@.len() implies polys_model(st.polygons@)[k] == polys_model(
                l0,
            ).push(ge)[k] by {
                if k < l0.len() {
                    assert(st.polygons@[k] == l0[k]);
                    assert(polys_model(l0)[k] == poly_model(l0[k]));
                } else {
                    assert(st.polygons@[k] == element);
                }
            }
            assert(polys_model(st.polygons@) =~= polys_model(l0).push(ge));
            lemma_docstate_bounded(st);
            lemma_obj_step_wf(d0, gs);
        }
        return Ok(());
    } else if chars_eq_str(kw, "g") {
        if args.len() == 1 {
            let count = (st.points.len(), st.lines.len(), st.polygons.len());
            proof {
                assert(count == gdoc_count(d0));
                assert(gs.args[0] == args@[0]@);
            }
            st.group_builder.start(&args[0], count);
            proof {
                lemma_docstate_bounded(st);
                lemma_obj_step_wf(d0, gs);
            }
            return Ok(());
        } else {
            return Err(
                ObjError::Load(
                    LoadError::new(
                        LoadErrorKind::WrongNumberOfArguments,
                        "Expected group name parameter, but nothing has been supplied",
                    ),
                ),
            );
        }
    } else if chars_eq_str(kw, "s") {
        if args.len() == 1 {
            proof {
                assert(gs.args[0] == args@[0]@);
            }
            let count = (st.points.len(), st.lines.len(), st.polygons.len());
            proof {
                assert(count == gdoc_count(d0));
            }
            if chars_eq_str(&args[0], "off") || chars_eq_str(&args[0], "0") {
                st.smoothing_builder.end(count);
                proof {
                    lemma_docstate_bounded(st);
                    lemma_obj_step_wf(d0, gs);
                }
                return Ok(());
            } else {
                match crate::raw::util::parse_usize(&args[0]) {
                    Err(k) => {
                        return Err(ObjError::ParseInt(k));
                    },
                    Ok(v) => {
                        st.smoothing_builder.start(v, count);
                        proof {
                            lemma_docstate_bounded(st);
                            lemma_obj_step_wf(d0, gs);
                        }
                        return Ok(());
                    },
                }
            }
        } else {
            return Err(
                ObjError::Load(
                    LoadError::new(LoadErrorKind::WrongNumberOfArguments, "Expected only 1 argument"),
                ),
            );
        }
    } else if chars_eq_str(kw, "mg") {
        if args.len() == 1 {
            proof {
                assert(gs.args[0] == args@[0]@);
            }
            let count = (st.points.len(), st.lines.len(), st.polygons.len());
            proof {
                assert(count == gdoc_count(d0));
            }
            if chars_eq_str(&args[0], "off") || chars_eq_str(&args[0], "0") {
                st.merging_builder.end(count);
                proof {
                    lemma_docstate_bounded(st);
                    lemma_obj_step_wf(d0, gs);
                }
                return Ok(());
            } else {
                match crate::raw::util::parse_usize(&args[0]) {
                    Err(k) => {
                        return Err(ObjError::ParseInt(k));
                    },
                    Ok(v) => {
                        st.merging_builder.start(v, count);
                        proof {
                            lemma_docstate_bounded(st);
                            lemma_obj_step_wf(d0, gs);
                        }
                        return Ok(());
                    },
                }
            }
        } else {
            return Err(
                ObjError::Load(
                    LoadError::new(LoadErrorKind::WrongNumberOfArguments, "Expected only 1 argument"),
                ),
            );
        }
    } else if chars_eq_str(kw, "o") {
        if args.len() == 0 {
            st.name = None;
        } else {
            let joined = join_args(args);
            st.name = Some(chars_to_string(&joined));
        }
        proof {
            lemma_docstate_bounded(st);
            lemma_obj_step_wf(d0, gs);
        }
        return Ok(());
    } else if chars_eq_str(kw, "usemtl") {
        if args.len() == 1 {
            let count = (st.points.len(), st.lines.len(), st.polygons.len());
            proof {
                assert(count == gdoc_count(d0));
                assert(gs.args[0] == args@[0]@);
            }
            st.mesh_builder.start(&args[0], count);
            proof {
                lemma_docstate_bounded(st);
                lemma_obj_step_wf(d0, gs);
            }
            return Ok(());
        } else {
            return Err(
                ObjError::Load(
                    LoadError::new(LoadErrorKind::WrongNumberOfArguments, "Expected only 1 argument"),
                ),
            );
        }
    } else if chars_eq_str(kw, "mtllib") {
        push_all_strings(&mut st.material_libraries, args);
        proof {
            lemma_docstate_bounded(st);
            lemma_obj_step_wf(d0, gs);
        }
        return Ok(());
    } else {
        return Err(
            ObjError::Load(
                LoadError::new(LoadErrorKind::UnexpectedStatement, "Received unknown statement"),
            ),
        );
    }
}

/// Low-level binding for the OBJ format: the parsed document.
///
/// Scalar attribute values are kept as the validated numeric tokens that
/// were written in the source; turning them into machine floats is the
/// caller's concern.
#[derive(Clone, Debug, PartialEq)]
pub struct RawObj {
    /// Name of the object, from its last `o` statement.
    pub name: Option<String>,
    /// The `.mtl` files the object asks for.
    pub material_libraries: Vec<String>,
    /// Position vectors of each vertex, as four float tokens.
    pub positions: Vec<(String, String, String, String)>,
    /// Texture coordinates of each vertex, as three float tokens.
    pub tex_coords: Vec<(String, String, String)>,
    /// Normal vectors of each vertex, as three float tokens.
    pub normals: Vec<(String, String, String)>,
    /// Parametric vertices, as three float tokens.
    pub param_vertices: Vec<(String, String, String)>,
    /// Points, by the index of their position vector.
    pub points: Vec<Point>,
    /// Lines, by the indices of their vertex data.
    pub lines: Vec<Line>,
    /// Polygons, by the indices of their vertex data.
    pub polygons: Vec<Polygon>,
    /// Groups of multiple geometries.
    pub groups: GroupMap,
    /// Geometries which consist in a same material.
    pub meshes: GroupMap,
    /// Smoothing groups.
    pub smoothing_groups: IdGroupMap,
    /// Merging groups.
    pub merging_groups: IdGroupMap,
}

impl RawObj {
    /// The document's model.
    pub open spec fn model(&self) -> GDoc {
        GDoc {
            name: match self.name {
                Some(ref s) => Some(s@),
                None => None,
            },
            material_libraries: strs_model(self.material_libraries@),
            positions: f4s_model(self.positions@),
            tex_coords: f3s_model(self.tex_coords@),
            normals: f3s_model(self.normals@),
            param_vertices: f3s_model(self.param_vertices@),
            points: self.points@,
            lines: line_elems_model(self.lines@),
            polygons: polys_model(self.polygons@),
            groups: GBuilder { current: None, result: self.groups.model() },
            meshes: GBuilder { current: None, result: self.meshes.model() },
            smoothing_groups: GBuilder { current: None, result: self.smoothing_groups.model() },
            merging_groups: GBuilder { current: None, result: self.merging_groups.model() },
        }
    }
}

/// A failed prefix decides the whole fold.
proof fn lemma_obj_fold_prefix_err(stmts: Seq<GStmt>, i: int)
    requires
        0 <= i <= stmts.len(),
        obj_fold(stmts.take(i)) is Err,
    ensures
        obj_fold(stmts) == obj_fold(stmts.take(i)),
    decreases stmts.len() - i,
{
    if i == stmts.len() {
        assert(stmts.take(i) =~= stmts);
    } else {
        assert(stmts.take(i + 1).drop_last() =~= stmts.take(i));
        lemma_obj_fold_prefix_err(stmts, i + 1);
    }
}

/// Parses a Wavefront OBJ source text.
///
/// The source must not hold free-form curve or surface statements, nor the
/// other statements of the format this library does not model; see
/// [`stmt_unsupported`].
pub fn parse_obj(input: &str) -> (r: ObjResult<RawObj>)
    requires
        lex_spec(input@) matches Ok(stmts) ==> all_supported(stmts),
    ensures
        match r {
            Ok(doc) => parse_obj_spec(input@) == Ok::<GDoc, ErrModel>(doc.model()) && gdoc_wf(
                doc.model(),
            ),
            Err(e) => parse_obj_spec(input@) == Err::<GDoc, ErrModel>(err_model(e)),
        },
{
    let stmts = match lex(input) {
        Err(e) => {
            return Err(e);
        },
        Ok(s) => s,
    };
    let ghost sm = stmts_model(stmts@);
    let mut st = DocState {
        name: None,
        material_libraries: Vec::new(),
        positions: Vec::new(),
        tex_coords: Vec::new(),
        normals: Vec::new(),
        param_vertices: Vec::new(),
        points: Vec::new(),
        lines: Vec::new(),
        polygons: Vec::new(),
        group_builder: GroupBuilder::with_default("default".to_owned()),
        mesh_builder: GroupBuilder::with_default("".to_owned()),
        smoothing_builder: IdGroupBuilder::new(),
        merging_builder: IdGroupBuilder::new(),
    };
    proof {
        assert(strs_model(st.material_libraries@) =~= Seq::<Seq<char>>::empty());
        assert(f4s_model(st.positions@) =~= Seq::<G4>::empty());
        assert(f3s_model(st.tex_coords@) =~= Seq::<G3>::empty());
        assert(f3s_model(st.normals@) =~= Seq::<G3>::empty());
        assert(f3s_model(st.param_vertices@) =~= Seq::<G3>::empty());
        assert(line_elems_model(st.lines@) =~= Seq::<GLine>::empty());
        assert(polys_model(st.polygons@) =~= Seq::<GPolygon>::empty());
        assert(st.model() == gdoc_init());
        lemma_gdoc_init_wf();
        assert(sm.take(0) =~= Seq::<GStmt>::empty());
    }
    let mut i: usize = 0;
    while i < stmts.len()
        invariant
            i <= stmts@.len(),
            sm == stmts_model(stmts@),
            lex_spec(input@) == Ok::<Seq<GStmt>, ()>(sm),
            all_supported(sm),
            obj_fold(sm.take(i as int)) == Ok::<GDoc, ErrModel>(st.model()),
            gdoc_wf(st.model()),
        decreases stmts@.len() - i,
    {
        proof {
            assert(sm[i as int] == stmts@[i as int].model());
        }
        let ghost dpre = st.model();
        match apply_statement(&mut st, &stmts[i]) {
            Ok(()) => {
                proof {
                    assert(sm.take(i + 1 as int).drop_last() =~= sm.take(i as int));
                    assert(sm.take(i + 1 as int).last() == sm[i as int]);
                }
            },
            Err(e) => {
                proof {
                    assert(sm.take(i + 1 as int).drop_last() =~= sm.take(i as int));
                    assert(sm.take(i + 1 as int).last() == sm[i as int]);
                    assert(obj_fold(sm.take(i + 1 as int)) == Err::<GDoc, ErrModel>(err_model(e)));
                    lemma_obj_fold_prefix_err(sm, i + 1);
                }
                return Err(e);
            },
        }
        i += 1;
    }
    proof {
        assert(sm.take(stmts@.len() as int) =~= sm);
    }
    let ghost dfold = st.model();
    let count = (st.points.len(), st.lines.len(), st.polygons.len());
    proof {
        assert(count == gdoc_count(dfold));
    }
    st.group_builder.end(count);
    st.mesh_builder.end(count);
    st.smoothing_builder.end(count);
    st.merging_builder.end(count);
    let ghost gmodel = st.model();
    let DocState {
        name,
        material_libraries,
        positions,
        tex_coords,
        normals,
        param_vertices,
        points,
        lines,
        polygons,
        group_builder,
        mesh_builder,
        smoothing_builder,
        merging_builder,
    } = st;
    let doc = RawObj {
        name,
        material_libraries,
        positions,
        tex_coords,
        normals,
        param_vertices,
        points,
        lines,
        polygons,
        groups: group_builder.result,
        meshes: mesh_builder.result,
        smoothing_groups: smoothing_builder.result,
        merging_groups: merging_builder.result,
    };
    proof {
        assert(gmodel.groups.current is None);
        assert(gmodel.meshes.current is None);
        assert(gmodel.smoothing_groups.current is None);
        assert(gmodel.merging_groups.current is None);
        assert(doc.model() == gmodel);
        assert(gmodel == gdoc_finish(dfold));
    }
    Ok(doc)
}

} // verus!
