//! Face ordering: filter out ignored textures, then sort the remaining faces
//! ascending by their minimum coordinate along the projection axis, keeping
//! the original order of faces that share a minimum (painter's algorithm).

use vstd::prelude::*;
use vstd::multiset::group_multiset_axioms;
use vstd::seq_lib::to_multiset_insert;
use vstd::seq_lib::to_multiset_remove;
use vstd::seq_lib::group_to_multiset_ensures;
use crate::geometry::ProjectionAxis;
use crate::geometry::COORD_LIMIT;
use crate::geometry::axis_coord;
use crate::geometry::lemma_seq_min;
use crate::geometry::lemma_seq_max;
use crate::geometry::seq_min;
use crate::geometry::seq_max;
use crate::level::Face;
use crate::level::Level;
use crate::level::face_axis_coords;
use crate::level::face_name;
use crate::textures::is_ignored_spec;
use crate::textures::is_ignored_texture;

verus! {

/// A reported failure of the conversion pipeline.
#[derive(Clone, Copy, PartialEq, Eq, Structural, Debug)]
pub enum RenderError {
    /// A face offered no vertices for its depth computation.
    DepthComputation,
}

/// The minimum depth of a face: the least coordinate along the axis over the
/// face's vertices.
pub open spec fn face_min_depth(level: Level, f: Face, axis: ProjectionAxis) -> int {
    seq_min(face_axis_coords(level, f, axis))
}

/// The faces of `level` whose first `n` faces survive the texture filter,
/// in their original order.
pub open spec fn filtered_prefix(level: Level, n: int) -> Seq<Face>
    decreases n,
{
    if n <= 0 {
        Seq::empty()
    } else {
        let rest = filtered_prefix(level, n - 1);
        if is_ignored_spec(face_name(level, level.faces@[n - 1])) {
            rest
        } else {
            rest.push(level.faces@[n - 1])
        }
    }
}

/// The faces that survive the texture filter, in their original order.
pub open spec fn spec_filter_faces(level: Level) -> Seq<Face> {
    filtered_prefix(level, level.faces@.len() as int)
}

/// Every filtered face keeps a non-ignored texture and comes from the level.
pub proof fn lemma_filtered_faces(level: Level, n: int)
    requires
        0 <= n <= level.faces@.len(),
    ensures
        filtered_prefix(level, n).len() <= n,
        forall|k: int|
            0 <= k < filtered_prefix(level, n).len() ==> !is_ignored_spec(
                face_name(level, #[trigger] filtered_prefix(level, n)[k]),
            ),
        forall|k: int|
            0 <= k < filtered_prefix(level, n).len() ==> exists|i: int|
                0 <= i < n && #[trigger] filtered_prefix(level, n)[k] == level.faces@[i],
    decreases n,
{
    if n > 0 {
        lemma_filtered_faces(level, n - 1);
        let cur = filtered_prefix(level, n);
        let rest = filtered_prefix(level, n - 1);
        assert forall|k: int| 0 <= k < cur.len() implies !is_ignored_spec(
            face_name(level, #[trigger] cur[k]),
        ) && exists|i: int| 0 <= i < n && cur[k] == level.faces@[i] by {
            if k < rest.len() {
                assert(cur[k] == rest[k]);
            } else {
                assert(cur[k] == level.faces@[n - 1]);
            }
        }
    }
}

/// Retains, in original order, every face whose texture name is not ignored.
pub fn filter_faces(level: &Level) -> (r: Vec<Face>)
    requires
        level.wf(),
    ensures
        r@ == spec_filter_faces(*level),
{
    let mut r: Vec<Face> = Vec::new();
    let n = level.faces.len();
    let mut i: usize = 0;
    while i < n
        invariant
            level.wf(),
            n == level.faces@.len(),
            i <= n,
            r@ == filtered_prefix(*level, i as int),
        decreases n - i,
    {
        let f = level.faces[i];
        if !is_ignored_texture(level.textures[f.texture_index].as_str()) {
            r.push(f);
        }
        i += 1;
    }
    r
}

/// Inserts `x` into `s` after every element whose key is at most `x`'s key:
/// one step of a stable insertion sort on (key, original position) pairs.
pub open spec fn spec_insert_pair(s: Seq<(i64, usize)>, x: (i64, usize)) -> Seq<(i64, usize)>
    decreases s.len(),
{
    if s.len() == 0 {
        seq![x]
    } else if s.last().0 <= x.0 {
        s.push(x)
    } else {
        spec_insert_pair(s.drop_last(), x).push(s.last())
    }
}

/// The position `spec_insert_pair` puts `x` at.
pub open spec fn spec_insert_pos(s: Seq<(i64, usize)>, x: (i64, usize)) -> int
    decreases s.len(),
{
    if s.len() == 0 {
        0
    } else if s.last().0 <= x.0 {
        s.len() as int
    } else {
        spec_insert_pos(s.drop_last(), x)
    }
}

/// The insertion of `x` is `s` with `x` put at `spec_insert_pos`: before every
/// element with a strictly greater key and after every other element.
pub proof fn lemma_insert_pair_at(s: Seq<(i64, usize)>, x: (i64, usize))
    ensures
        0 <= spec_insert_pos(s, x) <= s.len(),
        spec_insert_pair(s, x) == s.insert(spec_insert_pos(s, x), x),
        forall|k: int| spec_insert_pos(s, x) <= k < s.len() ==> (#[trigger] s[k]).0 > x.0,
        spec_insert_pos(s, x) > 0 ==> s[spec_insert_pos(s, x) - 1].0 <= x.0,
    decreases s.len(),
{
    let pos = spec_insert_pos(s, x);
    if s.len() == 0 {
        assert(spec_insert_pair(s, x) =~= s.insert(0, x));
    } else if s.last().0 <= x.0 {
        assert(spec_insert_pair(s, x) =~= s.insert(s.len() as int, x));
    } else {
        lemma_insert_pair_at(s.drop_last(), x);
        assert(spec_insert_pair(s, x) =~= s.insert(pos, x));
        assert forall|k: int| pos <= k < s.len() implies (#[trigger] s[k]).0 > x.0 by {
            if k < s.len() - 1 {
                assert(s[k] == s.drop_last()[k]);
            }
        }
        if pos > 0 {
            assert(s[pos - 1] == s.drop_last()[pos - 1]);
        }
    }
}

/// Stable insertion sort of (key, original position) pairs.
pub open spec fn spec_sort_pairs(s: Seq<(i64, usize)>) -> Seq<(i64, usize)>
    decreases s.len(),
{
    if s.len() == 0 {
        Seq::empty()
    } else {
        spec_insert_pair(spec_sort_pairs(s.drop_last()), s.last())
    }
}

/// Keys never decrease along a pair sequence.
pub open spec fn pairs_sorted(s: Seq<(i64, usize)>) -> bool {
    forall|p: int, q: int| 0 <= p < q < s.len() ==> (#[trigger] s[p]).0 <= (#[trigger] s[q]).0
}

/// Inserting preserves sortedness and adds exactly `x` to the contents.
pub proof fn lemma_insert_pair_props(s: Seq<(i64, usize)>, x: (i64, usize))
    requires
        pairs_sorted(s),
    ensures
        pairs_sorted(spec_insert_pair(s, x)),
        spec_insert_pair(s, x).to_multiset() == s.to_multiset().insert(x),
{
    lemma_insert_pair_at(s, x);
    let pos = spec_insert_pos(s, x);
    let r = s.insert(pos, x);
    to_multiset_insert(s, pos, x);
    assert forall|p: int, q: int| 0 <= p < q < r.len() implies (#[trigger] r[p]).0 <= (
    #[trigger] r[q]).0 by {
        if p < pos && q == pos {
            assert(r[p] == s[p]);
            assert(s[p].0 <= s[pos - 1].0);
        } else if p == pos && q > pos {
            assert(r[q] == s[q - 1]);
        } else if p < pos && q > pos {
            assert(r[p] == s[p] && r[q] == s[q - 1]);
        } else if p < pos && q < pos {
            assert(r[p] == s[p] && r[q] == s[q]);
        } else if p > pos && q > pos {
            assert(r[p] == s[p - 1] && r[q] == s[q - 1]);
        }
    }
}

/// The sorted pairs: sorted by key and a permutation of the input.
pub proof fn lemma_sort_pairs_props(s: Seq<(i64, usize)>)
    ensures
        pairs_sorted(spec_sort_pairs(s)),
        spec_sort_pairs(s).to_multiset() == s.to_multiset(),
    decreases s.len(),
{
    broadcast use group_to_multiset_ensures;

    if s.len() == 0 {
        assert(spec_sort_pairs(s).to_multiset() =~= s.to_multiset());
    } else {
        lemma_sort_pairs_props(s.drop_last());
        lemma_insert_pair_props(spec_sort_pairs(s.drop_last()), s.last());
        assert(s =~= s.drop_last().push(s.last()));
        assert(s.drop_last().push(s.last()).to_multiset() == s.drop_last().to_multiset().insert(
            s.last(),
        ));
    }
}

/// Keys never decrease, and pairs sharing a key keep ascending position
/// labels: the order the pairs were handed in with.
pub open spec fn pairs_lex_sorted(s: Seq<(i64, usize)>) -> bool {
    forall|p: int, q: int|
        0 <= p < q < s.len() ==> ((#[trigger] s[p]).0 < (#[trigger] s[q]).0 || (s[p].0 == s[q].0
            && s[p].1 < s[q].1))
}

proof fn lemma_insert_pair_lex(s: Seq<(i64, usize)>, x: (i64, usize))
    requires
        pairs_lex_sorted(s),
        forall|k: int| 0 <= k < s.len() ==> (#[trigger] s[k]).1 < x.1,
    ensures
        pairs_lex_sorted(spec_insert_pair(s, x)),
{
    lemma_insert_pair_at(s, x);
    let pos = spec_insert_pos(s, x);
    let r = s.insert(pos, x);
    assert forall|p: int, q: int| 0 <= p < q < r.len() implies ((#[trigger] r[p]).0 < (
    #[trigger] r[q]).0 || (r[p].0 == r[q].0 && r[p].1 < r[q].1)) by {
        if p < pos && q == pos {
            assert(r[p] == s[p]);
            if p < pos - 1 {
                assert(s[p].0 < s[pos - 1].0 || (s[p].0 == s[pos - 1].0 && s[p].1 < s[pos - 1].1));
            }
            assert(s[p].0 <= x.0);
            assert(s[p].1 < x.1);
        } else if p == pos && q > pos {
            assert(r[q] == s[q - 1]);
        } else if p < pos && q > pos {
            assert(r[p] == s[p] && r[q] == s[q - 1]);
        } else if q < pos {
            assert(r[p] == s[p] && r[q] == s[q]);
        } else if p > pos {
            assert(r[p] == s[p - 1] && r[q] == s[q - 1]);
        }
    }
}

/// The sort is stable: handed pairs labelled with their own positions, it
/// yields a sequence sorted by key in which pairs sharing a key keep their
/// original relative order.
pub proof fn lemma_sort_pairs_stable(s: Seq<(i64, usize)>)
    requires
        forall|k: int| 0 <= k < s.len() ==> (#[trigger] s[k]).1 == k,
    ensures
        pairs_lex_sorted(spec_sort_pairs(s)),
    decreases s.len(),
{
    broadcast use group_to_multiset_ensures;

    if s.len() > 0 {
        let butlast = s.drop_last();
        assert forall|k: int| 0 <= k < butlast.len() implies (#[trigger] butlast[k]).1 == k by {
            assert(butlast[k] == s[k]);
        }
        lemma_sort_pairs_stable(butlast);
        let sorted = spec_sort_pairs(butlast);
        assert forall|k: int| 0 <= k < sorted.len() implies (#[trigger] sorted[k]).1
            < s.last().1 by {
            lemma_sort_pairs_membership(butlast, k);
            let m = choose|m: int| 0 <= m < butlast.len() && butlast[m] == sorted[k];
            assert(sorted[k].1 == m);
        }
        lemma_insert_pair_lex(sorted, s.last());
    }
}

/// Every element of the sorted sequence occurs in the input.
pub proof fn lemma_sort_pairs_membership(s: Seq<(i64, usize)>, k: int)
    requires
        0 <= k < spec_sort_pairs(s).len(),
    ensures
        s.contains(spec_sort_pairs(s)[k]),
{
    broadcast use group_to_multiset_ensures;

    lemma_sort_pairs_props(s);
    let x = spec_sort_pairs(s)[k];
    assert(spec_sort_pairs(s).contains(x));
    assert(spec_sort_pairs(s).to_multiset().count(x) > 0);
    assert(s.to_multiset().count(x) > 0);
}

/// Mapping two sequences with equal contents gives equal contents.
proof fn lemma_map_values_multiset<A, B>(s1: Seq<A>, s2: Seq<A>, f: spec_fn(A) -> B)
    requires
        s1.to_multiset() == s2.to_multiset(),
    ensures
        s1.map_values(f).to_multiset() == s2.map_values(f).to_multiset(),
    decreases s1.len(),
{
    broadcast use group_to_multiset_ensures;
    broadcast use group_multiset_axioms;

    if s1.len() == 0 {
        assert(s1.to_multiset().len() == 0);
        assert(s2.to_multiset().len() == s2.len());
        assert(s2.len() == 0);
        assert(s1.map_values(f) =~= s2.map_values(f));
    } else {
        let x = s1.last();
        assert(s1 =~= s1.drop_last().push(x));
        assert(s1.contains(x));
        assert(s2.to_multiset().count(x) > 0);
        assert(s2.contains(x));
        let i = choose|i: int| 0 <= i < s2.len() && s2[i] == x;
        to_multiset_remove(s2, i);
        assert(s1.drop_last().to_multiset() =~= s2.remove(i).to_multiset()) by {
            assert(s1.drop_last().push(x).to_multiset() == s1.drop_last().to_multiset().insert(x));
            assert forall|a: A|
                s1.drop_last().to_multiset().count(a) == #[trigger] s2.remove(i).to_multiset()
                    .count(a) by {
                assert(s1.to_multiset().count(a) == s1.drop_last().to_multiset().insert(x).count(
                    a,
                ));
            }
        }
        lemma_map_values_multiset(s1.drop_last(), s2.remove(i), f);
        assert(s1.map_values(f) =~= s1.drop_last().map_values(f).push(f(x)));
        assert(s2.remove(i).map_values(f) =~= s2.map_values(f).remove(i));
        to_multiset_remove(s2.map_values(f), i);
        assert(s2.map_values(f)[i] == f(x));
        assert(s2.map_values(f).contains(f(x)));
        assert(s2.map_values(f).to_multiset().count(f(x)) > 0);
        assert(s1.map_values(f).to_multiset() =~= s2.map_values(f).to_multiset()) by {
            assert(s1.map_values(f).to_multiset() == s1.drop_last().map_values(f).to_multiset()
                .insert(f(x)));
            assert(s1.drop_last().map_values(f).to_multiset() == s2.map_values(f).to_multiset()
                .remove(f(x)));
        }
    }
}

/// The ordered output holds exactly the filtered faces, each as often as the
/// filter kept it: the sort is a permutation.
pub proof fn lemma_order_permutes(level: Level, axis: ProjectionAxis)
    requires
        level.faces@.len() <= usize::MAX,
    ensures
        spec_order(level, axis).to_multiset() == spec_filter_faces(level).to_multiset(),
{
    broadcast use group_to_multiset_ensures;

    let ff = spec_filter_faces(level);
    let pairs = Seq::new(
        ff.len(),
        |i: int| (face_min_depth(level, ff[i], axis) as i64, i as usize),
    );
    lemma_sort_pairs_props(pairs);
    lemma_filtered_faces(level, level.faces@.len() as int);
    let f = |p: (i64, usize)| ff[p.1 as int];
    lemma_map_values_multiset(spec_sort_pairs(pairs), pairs, f);
    assert(spec_order(level, axis) == spec_sort_pairs(pairs).map_values(f));
    assert(pairs.map_values(f) =~= ff) by {
        assert forall|i: int| 0 <= i < ff.len() implies #[trigger] pairs.map_values(f)[i]
            == ff[i] by {
            assert(pairs[i].1 == i as usize);
        }
    }
}

/// Inserts a pair into a key-sorted vector, after every element whose key is
/// at most the new pair's key.
fn insert_pair(v: &mut Vec<(i64, usize)>, x: (i64, usize))
    ensures
        final(v)@ == spec_insert_pair(old(v)@, x),
{
    let mut j = v.len();
    while j > 0 && v[j - 1].0 > x.0
        invariant
            j <= v@.len(),
            v@ == old(v)@,
            forall|k: int| j <= k < v@.len() ==> (#[trigger] v@[k]).0 > x.0,
        decreases j,
    {
        j -= 1;
    }
    proof {
        lemma_insert_pair_at(v@, x);
        let pos = spec_insert_pos(v@, x);
        if pos < j {
            assert(v@[j - 1].0 > x.0);
        }
        if j < pos {
            assert(v@[pos - 1].0 > x.0);
            assert(v@[pos - 1].0 <= x.0);
        }
        assert(pos == j as int);
    }
    v.insert(j, x);
}

/// Sorts (key, original position) pairs by key, stably.
fn sort_pairs(pairs: &Vec<(i64, usize)>) -> (r: Vec<(i64, usize)>)
    ensures
        r@ == spec_sort_pairs(pairs@),
{
    let mut r: Vec<(i64, usize)> = Vec::new();
    let n = pairs.len();
    let mut i: usize = 0;
    while i < n
        invariant
            n == pairs@.len(),
            i <= n,
            r@ == spec_sort_pairs(pairs@.take(i as int)),
        decreases n - i,
    {
        let x = pairs[i];
        insert_pair(&mut r, x);
        proof {
            assert(pairs@.take(i + 1).drop_last() =~= pairs@.take(i as int));
            assert(pairs@.take(i + 1).last() == pairs@[i as int]);
        }
        i += 1;
    }
    proof {
        assert(pairs@.take(n as int) =~= pairs@);
    }
    r
}

/// Computes the least and greatest coordinate of a face's vertices along the
/// chosen axis, from the original 3D coordinates.
#[verifier::rlimit(60)]
pub fn face_depth_range(level: &Level, f: &Face, axis: &ProjectionAxis) -> (r: (i64, i64))
    requires
        level.wf(),
        level.face_ok(*f),
        f.vertex_count > 0,
    ensures
        r.0 as int == seq_min(face_axis_coords(*level, *f, *axis)),
        r.1 as int == seq_max(face_axis_coords(*level, *f, *axis)),
        -COORD_LIMIT <= r.0 <= COORD_LIMIT,
        -COORD_LIMIT <= r.1 <= COORD_LIMIT,
{
    let ghost coords = face_axis_coords(*level, *f, *axis);
    let pool_len = level.face_vertex_indices.len();
    let idx0 = level.face_vertex_indices[f.vertex_start];
    let c0 = axis_coord(&level.vertices[idx0], axis);
    let mut lo = c0;
    let mut hi = c0;
    let mut j: usize = 1;
    proof {
        assert(coords[0] == c0);
        assert(coords.take(1) =~= seq![c0]);
    }
    while j < f.vertex_count
        invariant
            level.wf(),
            level.face_ok(*f),
            pool_len == level.face_vertex_indices@.len(),
            0 < j <= f.vertex_count,
            coords == face_axis_coords(*level, *f, *axis),
            lo as int == seq_min(coords.take(j as int)),
            hi as int == seq_max(coords.take(j as int)),
        decreases f.vertex_count - j,
    {
        let idx = level.face_vertex_indices[f.vertex_start + j];
        let c = axis_coord(&level.vertices[idx], axis);
        proof {
            assert(coords.take(j + 1).drop_last() =~= coords.take(j as int));
            assert(coords.take(j + 1).last() == coords[j as int]);
            assert(coords[j as int] == c);
        }
        if c < lo {
            lo = c;
        }
        if c > hi {
            hi = c;
        }
        j += 1;
    }
    proof {
        assert(coords.take(f.vertex_count as int) =~= coords);
        lemma_seq_min(coords);
        lemma_seq_max(coords);
        let i = choose|i: int| 0 <= i < coords.len() && coords[i] == seq_min(coords);
        let m = choose|i: int| 0 <= i < coords.len() && coords[i] == seq_max(coords);
        assert(crate::geometry::vertex_bounded(
            level.vertices@[level.face_vertex_indices@[f.vertex_start + i] as int],
        ));
        assert(crate::geometry::vertex_bounded(
            level.vertices@[level.face_vertex_indices@[f.vertex_start + m] as int],
        ));
    }
    (lo, hi)
}

/// The filtered faces in back-to-front order: sorted ascending by minimum
/// depth along the axis, stably.
pub open spec fn spec_order(level: Level, axis: ProjectionAxis) -> Seq<Face> {
    let ff = spec_filter_faces(level);
    let pairs = Seq::new(
        ff.len(),
        |i: int| (face_min_depth(level, ff[i], axis) as i64, i as usize),
    );
    spec_sort_pairs(pairs).map_values(|p: (i64, usize)| ff[p.1 as int])
}

/// Filters the level's faces by texture, then sorts them ascending by their
/// minimum coordinate along the axis, ties keeping their original order.
/// Fails when a retained face has no vertices to compute that minimum from.
pub fn filter_and_sort_faces(level: &Level, axis: &ProjectionAxis) -> (r: Result<
    Vec<Face>,
    RenderError,
>)
    requires
        level.wf(),
    ensures
        r matches Ok(out) ==> out@ == spec_order(*level, *axis),
        r matches Ok(out) ==> forall|i: int|
            0 <= i && i + 1 < out@.len() ==> face_min_depth(*level, #[trigger] out@[i], *axis)
                <= face_min_depth(*level, out@[i + 1], *axis),
        r matches Ok(out) ==> forall|i: int|
            0 <= i < out@.len() ==> !is_ignored_spec(face_name(*level, #[trigger] out@[i])),
        r matches Ok(out) ==> forall|k: int|
            0 <= k < out@.len() ==> (#[trigger] out@[k]).vertex_count > 0 && exists|m: int|
                0 <= m < level.faces@.len() && out@[k] == level.faces@[m],
        (r matches Ok(out)) <==> (forall|i: int|
            0 <= i < spec_filter_faces(*level).len() ==> (#[trigger] spec_filter_faces(
                *level,
            )[i]).vertex_count > 0),
{
    let faces = filter_faces(level);
    let ghost ff = spec_filter_faces(*level);
    proof {
        lemma_filtered_faces(*level, level.faces@.len() as int);
    }
    let ghost keys = Seq::new(
        ff.len(),
        |i: int| (face_min_depth(*level, ff[i], *axis) as i64, i as usize),
    );
    let mut pairs: Vec<(i64, usize)> = Vec::new();
    let n = faces.len();
    let mut i: usize = 0;
    while i < n
        invariant
            level.wf(),
            n == ff.len(),
            faces@ == ff,
            ff == spec_filter_faces(*level),
            keys == Seq::new(
                ff.len(),
                |k: int| (face_min_depth(*level, ff[k], *axis) as i64, k as usize),
            ),
            forall|k: int|
                0 <= k < ff.len() ==> exists|m: int|
                    0 <= m < level.faces@.len() && #[trigger] ff[k] == level.faces@[m],
            i <= n,
            pairs@ == keys.take(i as int),
            forall|k: int| 0 <= k < i ==> (#[trigger] ff[k]).vertex_count > 0,
        decreases n - i,
    {
        let f = faces[i];
        proof {
            let m = choose|m: int|
                0 <= m < level.faces@.len() && ff[i as int] == level.faces@[m];
            assert(level.face_ok(level.faces@[m]));
        }
        if f.vertex_count == 0 {
            proof {
                assert(spec_filter_faces(*level)[i as int].vertex_count == 0);
            }
            return Err(RenderError::DepthComputation);
        }
        let range = face_depth_range(level, &f, axis);
        pairs.push((range.0, i));
        proof {
            assert(pairs@ =~= keys.take(i + 1));
        }
        i += 1;
    }
    proof {
        assert(pairs@ =~= keys);
    }
    let sorted = sort_pairs(&pairs);
    let mut out: Vec<Face> = Vec::new();
    let mut k: usize = 0;
    proof {
        lemma_sort_pairs_props(keys);
    }
    while k < sorted.len()
        invariant
            level.wf(),
            faces@ == ff,
            n == ff.len(),
            ff == spec_filter_faces(*level),
            sorted@ == spec_sort_pairs(keys),
            keys == Seq::new(
                ff.len(),
                |m: int| (face_min_depth(*level, ff[m], *axis) as i64, m as usize),
            ),
            k <= sorted@.len(),
            out@ == spec_sort_pairs(keys).take(k as int).map_values(
                |p: (i64, usize)| ff[p.1 as int],
            ),
        decreases sorted@.len() - k,
    {
        proof {
            lemma_sort_pairs_membership(keys, k as int);
            let m = choose|m: int| 0 <= m < keys.len() && keys[m] == sorted@[k as int];
            assert(sorted@[k as int].1 == m as usize);
        }
        let p = sorted[k];
        out.push(faces[p.1]);
        proof {
            assert(out@ =~= spec_sort_pairs(keys).take(k + 1).map_values(
                |p: (i64, usize)| ff[p.1 as int],
            ));
        }
        k += 1;
    }
    proof {
        assert(spec_sort_pairs(keys).take(spec_sort_pairs(keys).len() as int) =~= spec_sort_pairs(
            keys,
        ));
        assert(out@ == spec_order(*level, *axis));
        assert forall|i2: int| 0 <= i2 < out@.len() implies !is_ignored_spec(
            face_name(*level, #[trigger] out@[i2]),
        ) by {
            lemma_sort_pairs_membership(keys, i2);
        }
        assert forall|k2: int|
            0 <= k2 < out@.len() implies (#[trigger] out@[k2]).vertex_count > 0 && exists|m: int|
            0 <= m < level.faces@.len() && out@[k2] == level.faces@[m] by {
            lemma_sort_pairs_membership(keys, k2);
            let m = choose|m: int| 0 <= m < keys.len() && keys[m] == spec_sort_pairs(keys)[k2];
            assert(out@[k2] == ff[m]);
            assert(ff[m].vertex_count > 0);
        }
        assert forall|i2: int|
            0 <= i2 && i2 + 1 < out@.len() implies face_min_depth(*level, #[trigger] out@[i2], *axis)
            <= face_min_depth(*level, out@[i2 + 1], *axis) by {
            lemma_sort_pairs_membership(keys, i2);
            lemma_sort_pairs_membership(keys, i2 + 1);
            let s = spec_sort_pairs(keys);
            assert(s[i2].0 <= s[i2 + 1].0);
            let m1 = choose|m: int| 0 <= m < keys.len() && keys[m] == s[i2];
            let m2 = choose|m: int| 0 <= m < keys.len() && keys[m] == s[i2 + 1];
            lemma_face_min_bounded(*level, ff[m1], *axis);
            lemma_face_min_bounded(*level, ff[m2], *axis);
        }
    }
    Ok(out)
}

/// A face of the level with at least one vertex has its minimum depth within
/// the coordinate bound, so the `i64` key used for sorting is exact.
pub proof fn lemma_face_min_bounded(level: Level, f: Face, axis: ProjectionAxis)
    requires
        level.wf(),
        exists|m: int| 0 <= m < level.faces@.len() && f == level.faces@[m],
        f.vertex_count > 0,
    ensures
        -COORD_LIMIT <= face_min_depth(level, f, axis) <= COORD_LIMIT,
{
    let m = choose|m: int| 0 <= m < level.faces@.len() && f == level.faces@[m];
    assert(level.face_ok(level.faces@[m]));
    let coords = face_axis_coords(level, f, axis);
    lemma_seq_min(coords);
    let i = choose|i: int| 0 <= i < coords.len() && coords[i] == seq_min(coords);
    assert(crate::geometry::vertex_bounded(
        level.vertices@[level.face_vertex_indices@[f.vertex_start + i] as int],
    ));
}

} // verus!
