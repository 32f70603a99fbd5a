//! Meshes, the camera, and the renderer that draws the edges of the one as
//! the other sees them.

use crate::arith::floor_div;
use crate::char_buffer::CharBuffer;
use crate::line::{shown, Line};
use crate::projection::{
    lemma_turned_whole_turns, project, projected, same_directions, scale, scaled, shift_back,
    shifted_back, turn, turn_back, turned, turned_back,
};
use crate::trig::SineTable;
use crate::vector::{Axis, Vector2, Vector3, ONE};
use vstd::arithmetic::div_mod::{
    lemma_div_is_ordered, lemma_fundamental_div_mod, lemma_fundamental_div_mod_converse,
    lemma_mod_bound,
};
use vstd::prelude::*;

verus! {

/// A vertex as a mesh stores it: its index, then its position.
pub type Entry = (usize, Vector3);

/// The mapping from index to position that a sequence of entries stands
/// for, a later entry taking the place of an earlier one of the same index.
pub open spec fn map_of(entries: Seq<Entry>) -> Map<usize, Vector3>
    decreases entries.len(),
{
    if entries.len() == 0 {
        Map::empty()
    } else {
        map_of(entries.drop_last()).insert(entries.last().0, entries.last().1)
    }
}

/// No index stands twice among the entries.
pub open spec fn distinct_indices(entries: Seq<Entry>) -> bool {
    forall|i: int, j: int|
        0 <= i < j < entries.len() ==> (#[trigger] entries[i]).0 != (#[trigger] entries[j]).0
}

/// The mapping holds exactly the indices of the entries, and for each the
/// position of the last entry that has it.
pub proof fn lemma_map_of(entries: Seq<Entry>)
    ensures
        forall|k: usize|
            (#[trigger] map_of(entries).dom().contains(k)) <==> exists|i: int|
                0 <= i < entries.len() && (#[trigger] entries[i]).0 == k,
        forall|i: int|
            0 <= i < entries.len() && (forall|j: int|
                i < j < entries.len() ==> (#[trigger] entries[j]).0 != entries[i].0) ==> map_of(
                entries,
            )[(#[trigger] entries[i]).0] == entries[i].1,
    decreases entries.len(),
{
    if entries.len() > 0 {
        let rest = entries.drop_last();
        let last = entries.last();
        lemma_map_of(rest);
        assert(map_of(entries) == map_of(rest).insert(last.0, last.1));
        assert forall|k: usize|
            (#[trigger] map_of(entries).dom().contains(k)) <==> exists|i: int|
                0 <= i < entries.len() && (#[trigger] entries[i]).0 == k by {
            if map_of(entries).dom().contains(k) {
                if k == last.0 {
                    assert(entries[entries.len() - 1].0 == k);
                } else {
                    assert(map_of(rest).dom().contains(k));
                    let i = choose|i: int| 0 <= i < rest.len() && (#[trigger] rest[i]).0 == k;
                    assert(entries[i].0 == k);
                }
            }
            if exists|i: int| 0 <= i < entries.len() && (#[trigger] entries[i]).0 == k {
                let i = choose|i: int| 0 <= i < entries.len() && (#[trigger] entries[i]).0 == k;
                if i < rest.len() {
                    assert(rest[i].0 == k);
                    assert(map_of(rest).dom().contains(k));
                }
            }
        }
        assert forall|i: int|
            0 <= i < entries.len() && (forall|j: int|
                i < j < entries.len() ==> (#[trigger] entries[j]).0 != entries[i].0) implies map_of(
            entries,
        )[(#[trigger] entries[i]).0] == entries[i].1 by {
            if i < rest.len() {
                assert(entries[entries.len() - 1].0 != entries[i].0);
                assert(rest[i] == entries[i]);
                assert forall|j: int| i < j < rest.len() implies (#[trigger] rest[j]).0
                    != rest[i].0 by {
                    assert(entries[j].0 != entries[i].0);
                }
            }
        }
    }
}

/// To put a new position in the place of entry `at` changes the mapping as
/// an insertion under that entry's index does.
pub proof fn lemma_map_of_update(entries: Seq<Entry>, at: int, position: Vector3)
    requires
        distinct_indices(entries),
        0 <= at < entries.len(),
    ensures
        distinct_indices(entries.update(at, (entries[at].0, position))),
        map_of(entries.update(at, (entries[at].0, position))) == map_of(entries).insert(
            entries[at].0,
            position,
        ),
{
    let index = entries[at].0;
    let after = entries.update(at, (index, position));
    lemma_map_of(entries);
    lemma_map_of(after);
    let m = map_of(entries).insert(index, position);
    assert forall|k: usize| map_of(after).dom().contains(k) <==> m.dom().contains(k) by {
        if map_of(after).dom().contains(k) {
            let i = choose|i: int| 0 <= i < after.len() && (#[trigger] after[i]).0 == k;
            assert(entries[i].0 == k);
        }
        if m.dom().contains(k) {
            if k == index {
                assert(after[at].0 == k);
            } else {
                let i = choose|i: int| 0 <= i < entries.len() && (#[trigger] entries[i]).0 == k;
                assert(after[i].0 == k);
            }
        }
    }
    assert forall|k: usize| map_of(after).dom().contains(k) implies map_of(after)[k] == m[k] by {
        let i = choose|i: int| 0 <= i < after.len() && (#[trigger] after[i]).0 == k;
        assert(entries[i].0 == k);
        assert(after[i].0 == k);
    }
    assert(map_of(after) =~= m);
}

/// The sum of the positions' components along `axis`.
pub open spec fn sum_along(entries: Seq<Entry>, axis: Axis) -> int
    decreases entries.len(),
{
    if entries.len() == 0 {
        0
    } else {
        sum_along(entries.drop_last(), axis) + entries.last().1.along(axis)
    }
}

/// The mean of the positions' components along `axis`, rounded down to a
/// whole step; zero where there are no positions.
pub open spec fn mean_along(entries: Seq<Entry>, axis: Axis) -> int {
    if entries.len() == 0 {
        0
    } else {
        sum_along(entries, axis) / (entries.len() as int)
    }
}

/// The mean of the positions, each component rounded down to a whole step;
/// the origin where there are no positions.
pub open spec fn centroid(entries: Seq<Entry>) -> Vector3 {
    Vector3 {
        x: mean_along(entries, Axis::X) as i32,
        y: mean_along(entries, Axis::Y) as i32,
        z: mean_along(entries, Axis::Z) as i32,
    }
}

/// `position` moved back by `by`, in whole numbers.
pub open spec fn moved_back(position: Vector3, by: Vector3, axis: Axis) -> int {
    position.along(axis) - by.along(axis)
}

/// Every position, moved back by the centroid, still has components that a
/// vector can hold.
pub open spec fn spread_fits(entries: Seq<Entry>) -> bool {
    forall|i: int, axis: Axis|
        0 <= i < entries.len() ==> i32::MIN <= #[trigger] moved_back(
            entries[i].1,
            centroid(entries),
            axis,
        ) <= i32::MAX
}

/// `after` holds the entries of `before`, each position moved back by `by`.
pub open spec fn all_moved_back(before: Seq<Entry>, after: Seq<Entry>, by: Vector3) -> bool {
    &&& after.len() == before.len()
    &&& forall|i: int|
        0 <= i < before.len() ==> (#[trigger] after[i]).0 == before[i].0 && forall|axis: Axis|
            after[i].1.along(axis) == #[trigger] moved_back(before[i].1, by, axis)
}

/// A sum of components lies within as many times a component's range as
/// there are entries, and so does their mean within the range itself.
pub proof fn lemma_sum_bounds(entries: Seq<Entry>, axis: Axis)
    ensures
        entries.len() * i32::MIN <= sum_along(entries, axis) <= entries.len() * i32::MAX,
        i32::MIN <= mean_along(entries, axis) <= i32::MAX,
    decreases entries.len(),
{
    let n = entries.len() as int;
    if n > 0 {
        lemma_sum_bounds(entries.drop_last(), axis);
        let s = sum_along(entries, axis);
        assert(n * i32::MIN == (n - 1) * i32::MIN + i32::MIN) by (nonlinear_arith);
        assert(n * i32::MAX == (n - 1) * i32::MAX + i32::MAX) by (nonlinear_arith);
        lemma_div_is_ordered(n * i32::MIN, s, n);
        lemma_div_is_ordered(s, n * i32::MAX, n);
        lemma_fundamental_div_mod_converse(n * i32::MIN, n, i32::MIN as int, 0);
        lemma_fundamental_div_mod_converse(n * i32::MAX, n, i32::MAX as int, 0);
        assert(n * i32::MIN == i32::MIN * n + 0) by (nonlinear_arith);
        assert(n * i32::MAX == i32::MAX * n + 0) by (nonlinear_arith);
    }
}

/// Where every position is moved back by the same vector, each sum of
/// components falls by that vector's component once for every entry.
pub proof fn lemma_sum_moved_back(before: Seq<Entry>, after: Seq<Entry>, by: Vector3, axis: Axis)
    requires
        all_moved_back(before, after, by),
    ensures
        sum_along(after, axis) == sum_along(before, axis) - before.len() * by.along(axis),
    decreases before.len(),
{
    let n = before.len() as int;
    if n > 0 {
        let b = before.drop_last();
        let a = after.drop_last();
        assert forall|i: int| 0 <= i < b.len() implies (#[trigger] a[i]).0 == b[i].0
            && forall|axis: Axis|
            a[i].1.along(axis) == #[trigger] moved_back(b[i].1, by, axis) by {
            assert(a[i] == after[i]);
            assert(b[i] == before[i]);
        }
        lemma_sum_moved_back(b, a, by, axis);
        assert(after[n - 1].1.along(axis) == moved_back(before[n - 1].1, by, axis));
        assert(n * by.along(axis) == (n - 1) * by.along(axis) + by.along(axis))
            by (nonlinear_arith);
    } else {
        assert(0 * by.along(axis) == 0);
    }
}

/// A mesh that has been moved back by its centroid has its own centroid at
/// the origin, as nearly as whole steps allow: along each axis the
/// components that are left sum to less than one step for each vertex, and
/// to no less than zero.
pub proof fn lemma_recentred_sums(before: Seq<Entry>, after: Seq<Entry>, axis: Axis)
    requires
        before.len() > 0,
        all_moved_back(before, after, centroid(before)),
    ensures
        0 <= sum_along(after, axis) < before.len(),
        mean_along(after, axis) == 0,
{
    let n = before.len() as int;
    let s = sum_along(before, axis);
    lemma_sum_bounds(before, axis);
    lemma_sum_moved_back(before, after, centroid(before), axis);
    assert(centroid(before).along(axis) == mean_along(before, axis));
    lemma_fundamental_div_mod(s, n);
    lemma_mod_bound(s, n);
    assert(n * (s / n) == n * mean_along(before, axis));
    lemma_fundamental_div_mod_converse(sum_along(after, axis), n, 0, sum_along(after, axis));
}

/// A named set of vertices and of edges between them, with the angles it is
/// turned by about each axis and the factors it is scaled by along each.
pub struct Mesh {
    /// The vertices in the order in which their indices first came. No index
    /// stands twice.
    pub entries: Vec<Entry>,
    /// The edges in the order they were added, each a pair of vertex indices.
    pub edges: Vec<(usize, usize)>,
    /// The angle of rotation about each axis, in radians.
    pub rotation: Vector3,
    /// The factor of scaling along each axis.
    pub scale: Vector3,
}

impl Mesh {
    /// No index is stored twice.
    pub open spec fn wf(&self) -> bool {
        distinct_indices(self.entries@)
    }

    /// The position stored under each index.
    pub open spec fn vertices(&self) -> Map<usize, Vector3> {
        map_of(self.entries@)
    }

    /// A mesh without vertices or edges, not turned, at its own size.
    pub fn new() -> (mesh: Self)
        ensures
            mesh.wf(),
            mesh.entries@ == Seq::<Entry>::empty(),
            mesh.vertices() == Map::<usize, Vector3>::empty(),
            mesh.edges@ == Seq::<(usize, usize)>::empty(),
            mesh.rotation == (Vector3 { x: 0, y: 0, z: 0 }),
            mesh.scale == (Vector3 { x: ONE, y: ONE, z: ONE }),
    {
        Mesh {
            entries: Vec::new(),
            edges: Vec::new(),
            rotation: Vector3 { x: 0, y: 0, z: 0 },
            scale: Vector3 { x: ONE, y: ONE, z: ONE },
        }
    }

    /// A mesh of the vertices at `positions`, each stored under its place in
    /// the list, and of `edges` between them.
    pub fn from_parts(positions: &Vec<Vector3>, edges: Vec<(usize, usize)>) -> (mesh: Self)
        ensures
            mesh.wf(),
            mesh.entries@ == Seq::new(positions@.len(), |i: int| (i as usize, positions@[i])),
            mesh.edges@ == edges@,
            mesh.rotation == (Vector3 { x: 0, y: 0, z: 0 }),
            mesh.scale == (Vector3 { x: ONE, y: ONE, z: ONE }),
    {
        let mut entries: Vec<Entry> = Vec::new();
        let mut i: usize = 0;
        while i < positions.len()
            invariant
                i <= positions@.len(),
                entries@ == Seq::new(i as nat, |k: int| (k as usize, positions@[k])),
            decreases positions@.len() - i,
        {
            entries.push((i, positions[i]));
            i += 1;
            assert(entries@ =~= Seq::new(i as nat, |k: int| (k as usize, positions@[k])));
        }
        Mesh {
            entries,
            edges,
            rotation: Vector3 { x: 0, y: 0, z: 0 },
            scale: Vector3 { x: ONE, y: ONE, z: ONE },
        }
    }

    /// Whether no index is stored twice.
    pub fn is_well_formed(&self) -> (r: bool)
        ensures
            r == self.wf(),
    {
        let mut j: usize = 0;
        while j < self.entries.len()
            invariant
                j <= self.entries@.len(),
                forall|a: int, b: int|
                    0 <= a < b < j ==> (#[trigger] self.entries@[a]).0 != (
                    #[trigger] self.entries@[b]).0,
            decreases self.entries@.len() - j,
        {
            let mut i: usize = 0;
            while i < j
                invariant
                    i <= j < self.entries@.len(),
                    forall|a: int|
                        0 <= a < i ==> (#[trigger] self.entries@[a]).0 != self.entries@[j as int].0,
                decreases j - i,
            {
                if self.entries[i].0 == self.entries[j].0 {
                    return false;
                }
                i += 1;
            }
            j += 1;
        }
        true
    }

    /// Where among the entries `index` is stored, if anywhere.
    fn find(&self, index: usize) -> (at: Option<usize>)
        ensures
            match at {
                Some(i) => i < self.entries@.len() && self.entries@[i as int].0 == index,
                None => forall|i: int|
                    0 <= i < self.entries@.len() ==> (#[trigger] self.entries@[i]).0 != index,
            },
    {
        let mut i: usize = 0;
        while i < self.entries.len()
            invariant
                i <= self.entries@.len(),
                forall|k: int| 0 <= k < i ==> (#[trigger] self.entries@[k]).0 != index,
            decreases self.entries@.len() - i,
        {
            if self.entries[i].0 == index {
                return Some(i);
            }
            i += 1;
        }
        None
    }

    /// The sum of the positions' components along `axis`.
    fn sum(&self, axis: Axis) -> (s: i128)
        ensures
            s == sum_along(self.entries@, axis),
    {
        let mut s: i128 = 0;
        let mut i: usize = 0;
        while i < self.entries.len()
            invariant
                i <= self.entries@.len(),
                s == sum_along(self.entries@.take(i as int), axis),
            decreases self.entries@.len() - i,
        {
            proof {
                assert(self.entries@.take(i + 1).drop_last() == self.entries@.take(i as int));
                lemma_sum_bounds(self.entries@.take(i as int), axis);
                assert(i * i32::MIN >= 0xffff_ffff_ffff_ffff * i32::MIN) by (nonlinear_arith)
                    requires
                        0 <= i <= 0xffff_ffff_ffff_ffff,
                ;
                assert(i * i32::MAX <= 0xffff_ffff_ffff_ffff * i32::MAX) by (nonlinear_arith)
                    requires
                        0 <= i <= 0xffff_ffff_ffff_ffff,
                ;
            }
            s = s + self.entries[i].1.component(axis) as i128;
            i += 1;
        }
        assert(self.entries@.take(i as int) == self.entries@);
        s
    }

    /// The mean of the positions' components along `axis`, rounded down.
    fn mean(&self, axis: Axis) -> (m: i32)
        ensures
            m == mean_along(self.entries@, axis),
    {
        let n: usize = self.entries.len();
        if n == 0 {
            return 0;
        }
        let s: i128 = self.sum(axis);
        proof {
            lemma_sum_bounds(self.entries@, axis);
            assert(n * i32::MIN >= 0xffff_ffff_ffff_ffff * i32::MIN) by (nonlinear_arith)
                requires
                    0 <= n <= 0xffff_ffff_ffff_ffff,
            ;
            assert(n * i32::MAX <= 0xffff_ffff_ffff_ffff * i32::MAX) by (nonlinear_arith)
                requires
                    0 <= n <= 0xffff_ffff_ffff_ffff,
            ;
        }
        floor_div(s, n as i128) as i32
    }

    /// The mean of the positions, each component rounded down to a whole
    /// step; the origin for a mesh without vertices.
    pub fn centroid(&self) -> (c: Vector3)
        ensures
            c == centroid(self.entries@),
    {
        Vector3 { x: self.mean(Axis::X), y: self.mean(Axis::Y), z: self.mean(Axis::Z) }
    }

    /// Whether the mesh can be moved back by its centroid without a position
    /// leaving the range of a vector.
    pub fn can_recenter(&self) -> (fits: bool)
        ensures
            fits == spread_fits(self.entries@),
    {
        let c = self.centroid();
        let mut i: usize = 0;
        while i < self.entries.len()
            invariant
                i <= self.entries@.len(),
                c == centroid(self.entries@),
                forall|k: int, axis: Axis|
                    0 <= k < i ==> i32::MIN <= #[trigger] moved_back(self.entries@[k].1, c, axis)
                        <= i32::MAX,
            decreases self.entries@.len() - i,
        {
            let p = self.entries[i].1;
            let x: i64 = p.x as i64 - c.x as i64;
            let y: i64 = p.y as i64 - c.y as i64;
            let z: i64 = p.z as i64 - c.z as i64;
            if x < i32::MIN as i64 || x > i32::MAX as i64 {
                assert(x == moved_back(self.entries@[i as int].1, c, Axis::X));
                return false;
            }
            if y < i32::MIN as i64 || y > i32::MAX as i64 {
                assert(y == moved_back(self.entries@[i as int].1, c, Axis::Y));
                return false;
            }
            if z < i32::MIN as i64 || z > i32::MAX as i64 {
                assert(z == moved_back(self.entries@[i as int].1, c, Axis::Z));
                return false;
            }
            assert forall|k: int, axis: Axis| 0 <= k < i + 1 implies i32::MIN
                <= #[trigger] moved_back(self.entries@[k].1, c, axis) <= i32::MAX by {
                if k == i {
                    match axis {
                        Axis::X => {},
                        Axis::Y => {},
                        Axis::Z => {},
                    }
                }
            }
            i += 1;
        }
        true
    }

    /// Moves the mesh so that its centroid comes to lie at the origin: takes
    /// the centroid from every position, and returns it. A mesh without
    /// vertices stays as it is and gives the origin.
    pub fn recenter(&mut self) -> (c: Vector3)
        requires
            old(self).wf(),
            spread_fits(old(self).entries@),
        ensures
            final(self).wf(),
            c == centroid(old(self).entries@),
            all_moved_back(old(self).entries@, final(self).entries@, c),
            final(self).vertices().dom() == old(self).vertices().dom(),
            forall|axis: Axis|
                old(self).entries@.len() > 0 ==> 0 <= #[trigger] sum_along(
                    final(self).entries@,
                    axis,
                ) < old(self).entries@.len(),
            forall|axis: Axis| #[trigger] mean_along(final(self).entries@, axis) == 0,
            final(self).edges == old(self).edges,
            final(self).rotation == old(self).rotation,
            final(self).scale == old(self).scale,
    {
        let c = self.centroid();
        let mut i: usize = 0;
        while i < self.entries.len()
            invariant
                i <= self.entries@.len(),
                self.entries@.len() == old(self).entries@.len(),
                c == centroid(old(self).entries@),
                spread_fits(old(self).entries@),
                self.edges == old(self).edges,
                self.rotation == old(self).rotation,
                self.scale == old(self).scale,
                forall|k: int|
                    0 <= k < i ==> (#[trigger] self.entries@[k]).0 == old(self).entries@[k].0
                        && forall|axis: Axis|
                        self.entries@[k].1.along(axis) == #[trigger] moved_back(
                            old(self).entries@[k].1,
                            c,
                            axis,
                        ),
                forall|k: int|
                    i <= k < self.entries@.len() ==> #[trigger] self.entries@[k] == old(
                        self,
                    ).entries@[k],
            decreases self.entries@.len() - i,
        {
            let (index, p) = self.entries[i];
            proof {
                let before = old(self).entries@[i as int].1;
                assert(i32::MIN <= moved_back(before, c, Axis::X) <= i32::MAX);
                assert(i32::MIN <= moved_back(before, c, Axis::Y) <= i32::MAX);
                assert(i32::MIN <= moved_back(before, c, Axis::Z) <= i32::MAX);
            }
            let moved = Vector3 { x: p.x - c.x, y: p.y - c.y, z: p.z - c.z };
            self.entries.set(i, (index, moved));
            assert forall|axis: Axis|
                moved.along(axis) == #[trigger] moved_back(
                    old(self).entries@[i as int].1,
                    c,
                    axis,
                ) by {
                match axis {
                    Axis::X => {},
                    Axis::Y => {},
                    Axis::Z => {},
                }
            }
            i += 1;
        }
        proof {
            let before = old(self).entries@;
            let after = self.entries@;
            assert(all_moved_back(before, after, c));
            assert forall|a: int, b: int| 0 <= a < b < after.len() implies (#[trigger] after[a]).0
                != (#[trigger] after[b]).0 by {
                assert(before[a].0 != before[b].0);
            }
            lemma_map_of(before);
            lemma_map_of(after);
            assert forall|k: usize|
                map_of(after).dom().contains(k) <==> map_of(before).dom().contains(k) by {
                if map_of(after).dom().contains(k) {
                    let j = choose|j: int| 0 <= j < after.len() && (#[trigger] after[j]).0 == k;
                    assert(before[j].0 == k);
                }
                if map_of(before).dom().contains(k) {
                    let j = choose|j: int| 0 <= j < before.len() && (#[trigger] before[j]).0 == k;
                    assert(after[j].0 == k);
                }
            }
            assert(map_of(after).dom() =~= map_of(before).dom());
            assert forall|axis: Axis|
                (before.len() > 0 ==> 0 <= #[trigger] sum_along(after, axis) < before.len())
                    && mean_along(after, axis) == 0 by {
                if before.len() > 0 {
                    lemma_recentred_sums(before, after, axis);
                }
            }
        }
        c
    }

    /// The number of vertices.
    pub fn vertex_count(&self) -> (n: usize)
        ensures
            n == self.entries@.len(),
    {
        self.entries.len()
    }

    /// The position stored under `index`, if there is one.
    pub fn vertex(&self, index: usize) -> (position: Option<Vector3>)
        requires
            self.wf(),
        ensures
            position == if self.vertices().dom().contains(index) {
                Some(self.vertices()[index])
            } else {
                None
            },
    {
        proof {
            lemma_map_of(self.entries@);
        }
        match self.find(index) {
            Some(i) => Some(self.entries[i].1),
            None => None,
        }
    }

    /// Stores `position` under `index`, in place of what was stored under it
    /// before, if anything was.
    pub fn insert_vertex(&mut self, index: usize, position: Vector3)
        requires
            old(self).wf(),
        ensures
            final(self).wf(),
            final(self).vertices() == old(self).vertices().insert(index, position),
            final(self).entries@ == if old(self).vertices().dom().contains(index) {
                old(self).entries@.map_values(
                    |e: Entry|
                        if e.0 == index {
                            (index, position)
                        } else {
                            e
                        },
                )
            } else {
                old(self).entries@.push((index, position))
            },
            final(self).edges == old(self).edges,
            final(self).rotation == old(self).rotation,
            final(self).scale == old(self).scale,
    {
        proof {
            lemma_map_of(self.entries@);
        }
        match self.find(index) {
            Some(i) => {
                proof {
                    lemma_map_of_update(self.entries@, i as int, position);
                }
                self.entries.set(i, (index, position));
                assert(self.entries@ =~= old(self).entries@.map_values(
                    |e: Entry|
                        if e.0 == index {
                            (index, position)
                        } else {
                            e
                        },
                ));
            },
            None => {
                self.entries.push((index, position));
                assert(self.entries@.drop_last() == old(self).entries@);
            },
        }
    }

    /// Adds an edge between the vertices of the two indices, after the edges
    /// that are there. An edge may be added twice.
    pub fn add_edge(&mut self, edge: (usize, usize))
        ensures
            final(self).edges@ == old(self).edges@.push(edge),
            final(self).entries@ == old(self).entries@,
            final(self).rotation == old(self).rotation,
            final(self).scale == old(self).scale,
    {
        self.edges.push(edge);
    }
}

impl Default for Mesh {
    fn default() -> (mesh: Self)
        ensures
            mesh.wf(),
            mesh.entries@ == Seq::<Entry>::empty(),
            mesh.edges@ == Seq::<(usize, usize)>::empty(),
            mesh.rotation == (Vector3 { x: 0, y: 0, z: 0 }),
            mesh.scale == (Vector3 { x: ONE, y: ONE, z: ONE }),
    {
        Mesh::new()
    }
}

/// The character that edges are drawn with.
pub const EDGE_CHAR: char = '#';

/// The eye: where it is, the angles it is turned by about each axis, and
/// the half angles of its field of view along the two axes of the screen.
#[derive(Clone, Copy, Debug, PartialEq, Eq, Structural)]
pub struct Camera {
    pub position: Vector3,
    pub rotation: Vector3,
    pub fov: Vector2,
}

/// An edge that names a vertex which its mesh does not have.
#[derive(Clone, Copy, Debug, PartialEq, Eq, Structural)]
pub struct MissingVertex {
    /// The place of the mesh among the renderer's meshes.
    pub mesh: usize,
    /// The index that no vertex is stored under.
    pub index: usize,
}

/// The first index, going through the edges from the one at `from` and
/// through each edge from its first end, that the mesh has no vertex for.
pub open spec fn first_missing(mesh: &Mesh, from: int) -> Option<usize>
    decreases mesh.edges@.len() - from,
{
    if from < 0 || from >= mesh.edges@.len() {
        None
    } else if !mesh.vertices().dom().contains(mesh.edges@[from].0) {
        Some(mesh.edges@[from].0)
    } else if !mesh.vertices().dom().contains(mesh.edges@[from].1) {
        Some(mesh.edges@[from].1)
    } else {
        first_missing(mesh, from + 1)
    }
}

/// The first missing vertex among the meshes from the one at `from` on.
pub open spec fn first_gap(meshes: Seq<Mesh>, from: int) -> Option<MissingVertex>
    decreases meshes.len() - from,
{
    if from < 0 || from >= meshes.len() {
        None
    } else {
        match first_missing(&meshes[from], 0) {
            Some(index) => Some(MissingVertex { mesh: from as usize, index }),
            None => first_gap(meshes, from + 1),
        }
    }
}

/// No index is missing from an edge on exactly if every edge from there on
/// has a vertex at both ends.
pub proof fn lemma_first_missing(mesh: &Mesh, from: int)
    requires
        0 <= from,
    ensures
        first_missing(mesh, from) is None <==> forall|i: int|
            from <= i < mesh.edges@.len() ==> mesh.has_both_ends(#[trigger] mesh.edges@[i]),
    decreases mesh.edges@.len() - from,
{
    if from < mesh.edges@.len() {
        lemma_first_missing(mesh, from + 1);
        if first_missing(mesh, from) is None {
            assert forall|i: int| from <= i < mesh.edges@.len() implies mesh.has_both_ends(
                #[trigger] mesh.edges@[i],
            ) by {
                if i > from {
                }
            }
        } else if first_missing(mesh, from + 1) is None {
            assert(!mesh.has_both_ends(mesh.edges@[from]));
        }
    }
}

/// No vertex is missing from a mesh on exactly if every mesh from there on
/// is closed.
pub proof fn lemma_first_gap(meshes: Seq<Mesh>, from: int)
    requires
        0 <= from,
    ensures
        first_gap(meshes, from) is None <==> forall|i: int|
            from <= i < meshes.len() ==> (#[trigger] meshes[i]).is_closed(),
    decreases meshes.len() - from,
{
    if from < meshes.len() {
        lemma_first_gap(meshes, from + 1);
        lemma_first_missing(&meshes[from], 0);
        if first_gap(meshes, from) is None {
            assert forall|i: int| from <= i < meshes.len() implies (
            #[trigger] meshes[i]).is_closed() by {
                if i > from {
                }
            }
        } else if first_gap(meshes, from + 1) is None {
            assert(!meshes[from].is_closed());
        }
    }
}

/// Where a vertex at `v` of a mesh shows on a screen of `width` by `height`
/// cells: the position is scaled by the mesh's factors and turned by its
/// angles, then taken to the camera's frame, which is to shift it back by the
/// camera's position and turn it back by the camera's angles, and at last
/// projected. None for a vertex that comes to lie at the eye's depth or
/// behind it.
pub open spec fn screen_point(
    table: &SineTable,
    mesh: &Mesh,
    camera: &Camera,
    v: Vector3,
    width: int,
    height: int,
) -> Option<Vector2> {
    let placed = turned(table, scaled(v, mesh.scale), mesh.rotation);
    let seen = turned_back(table, shifted_back(placed, camera.position), camera.rotation);
    projected(table, seen, camera.fov, width, height)
}

/// The segment that an edge of the mesh is drawn as: from the screen point
/// of its first end to that of its second. None where either end has none.
pub open spec fn edge_line(
    table: &SineTable,
    mesh: &Mesh,
    camera: &Camera,
    edge: (usize, usize),
    width: int,
    height: int,
) -> Option<Line>
    recommends
        mesh.has_both_ends(edge),
{
    let p = screen_point(table, mesh, camera, mesh.vertices()[edge.0], width, height);
    let q = screen_point(table, mesh, camera, mesh.vertices()[edge.1], width, height);
    if p is Some && q is Some {
        Some(Line { char: EDGE_CHAR, points: (p->0, q->0) })
    } else {
        None
    }
}

/// The segments of the first `upto` edges of the mesh, in the order of the
/// edges.
pub open spec fn mesh_lines(
    table: &SineTable,
    mesh: &Mesh,
    camera: &Camera,
    width: int,
    height: int,
    upto: int,
) -> Seq<Line>
    decreases upto,
{
    if upto <= 0 {
        Seq::empty()
    } else {
        let before = mesh_lines(table, mesh, camera, width, height, upto - 1);
        match edge_line(table, mesh, camera, mesh.edges@[upto - 1], width, height) {
            Some(line) => before.push(line),
            None => before,
        }
    }
}

/// The segments of the first `upto` meshes, mesh after mesh.
pub open spec fn scene_lines(
    table: &SineTable,
    meshes: Seq<Mesh>,
    camera: &Camera,
    width: int,
    height: int,
    upto: int,
) -> Seq<Line>
    decreases upto,
{
    if upto <= 0 {
        Seq::empty()
    } else {
        scene_lines(table, meshes, camera, width, height, upto - 1) + mesh_lines(
            table,
            &meshes[upto - 1],
            camera,
            width,
            height,
            meshes[upto - 1].edges@.len() as int,
        )
    }
}

/// A mesh turned by whole turns more or less about any of its axes is drawn
/// as the same segments: full turns of a mesh change nothing in the picture.
pub proof fn lemma_whole_turns_same_lines(
    table: &SineTable,
    mesh: &Mesh,
    turned_on: &Mesh,
    camera: &Camera,
    width: int,
    height: int,
    upto: int,
)
    requires
        turned_on.entries@ == mesh.entries@,
        turned_on.edges@ == mesh.edges@,
        turned_on.scale == mesh.scale,
        same_directions(mesh.rotation, turned_on.rotation),
    ensures
        mesh_lines(table, turned_on, camera, width, height, upto) == mesh_lines(
            table,
            mesh,
            camera,
            width,
            height,
            upto,
        ),
    decreases upto,
{
    if upto > 0 {
        lemma_whole_turns_same_lines(table, mesh, turned_on, camera, width, height, upto - 1);
        let edge = mesh.edges@[upto - 1];
        lemma_turned_whole_turns(
            table,
            scaled(mesh.vertices()[edge.0], mesh.scale),
            mesh.rotation,
            turned_on.rotation,
        );
        lemma_turned_whole_turns(
            table,
            scaled(mesh.vertices()[edge.1], mesh.scale),
            mesh.rotation,
            turned_on.rotation,
        );
    }
}

/// A camera turned by whole turns more or less about any of its axes sees a
/// mesh as the same segments.
pub proof fn lemma_camera_whole_turns_same_lines(
    table: &SineTable,
    mesh: &Mesh,
    camera: &Camera,
    turned_on: &Camera,
    width: int,
    height: int,
    upto: int,
)
    requires
        turned_on.position == camera.position,
        turned_on.fov == camera.fov,
        same_directions(camera.rotation, turned_on.rotation),
    ensures
        mesh_lines(table, mesh, turned_on, width, height, upto) == mesh_lines(
            table,
            mesh,
            camera,
            width,
            height,
            upto,
        ),
    decreases upto,
{
    if upto > 0 {
        lemma_camera_whole_turns_same_lines(table, mesh, camera, turned_on, width, height, upto - 1);
        let edge = mesh.edges@[upto - 1];
        let p = turned(table, scaled(mesh.vertices()[edge.0], mesh.scale), mesh.rotation);
        let q = turned(table, scaled(mesh.vertices()[edge.1], mesh.scale), mesh.rotation);
        lemma_turned_whole_turns(
            table,
            shifted_back(p, camera.position),
            camera.rotation,
            turned_on.rotation,
        );
        lemma_turned_whole_turns(
            table,
            shifted_back(q, camera.position),
            camera.rotation,
            turned_on.rotation,
        );
    }
}

impl Mesh {
    /// Whether the mesh has a vertex for each end of `edge`.
    pub open spec fn has_both_ends(&self, edge: (usize, usize)) -> bool {
        self.vertices().dom().contains(edge.0) && self.vertices().dom().contains(edge.1)
    }

    /// Whether every edge of the mesh has a vertex at both ends.
    pub open spec fn is_closed(&self) -> bool {
        forall|i: int| 0 <= i < self.edges@.len() ==> self.has_both_ends(#[trigger] self.edges@[i])
    }

    /// The first index that an edge names and no vertex is stored under,
    /// going through the edges in their order and through each from its
    /// first end; none where the mesh is closed.
    pub fn missing_vertex(&self) -> (r: Option<usize>)
        requires
            self.wf(),
        ensures
            r == first_missing(self, 0),
            r is None <==> self.is_closed(),
    {
        proof {
            lemma_first_missing(self, 0);
        }
        let mut i: usize = 0;
        while i < self.edges.len()
            invariant
                self.wf(),
                i <= self.edges@.len(),
                first_missing(self, 0) == first_missing(self, i as int),
            decreases self.edges@.len() - i,
        {
            let (a, b) = self.edges[i];
            if self.vertex(a).is_none() {
                return Some(a);
            }
            if self.vertex(b).is_none() {
                return Some(b);
            }
            i += 1;
        }
        None
    }

    /// The screen point of a vertex at `v` of this mesh.
    pub fn screen_point(
        &self,
        table: &SineTable,
        camera: &Camera,
        v: Vector3,
        width: usize,
        height: usize,
    ) -> (r: Option<Vector2>)
        requires
            table.wf(),
        ensures
            r == screen_point(table, self, camera, v, width as int, height as int),
    {
        let placed = turn(table, scale(v, self.scale), self.rotation);
        let seen = turn_back(table, shift_back(placed, camera.position), camera.rotation);
        project(table, seen, camera.fov, width, height)
    }

    /// The segments that the edges of the mesh are drawn as on a screen of
    /// `width` by `height` cells, in the order of the edges. An edge with an
    /// end at the eye's depth or behind it has none.
    pub fn lines(&self, table: &SineTable, camera: &Camera, width: usize, height: usize) -> (r:
        Vec<Line>)
        requires
            table.wf(),
            self.wf(),
            self.is_closed(),
        ensures
            r@ == mesh_lines(
                table,
                self,
                camera,
                width as int,
                height as int,
                self.edges@.len() as int,
            ),
    {
        let mut out: Vec<Line> = Vec::new();
        let mut i: usize = 0;
        while i < self.edges.len()
            invariant
                table.wf(),
                self.wf(),
                self.is_closed(),
                i <= self.edges@.len(),
                out@ == mesh_lines(table, self, camera, width as int, height as int, i as int),
            decreases self.edges@.len() - i,
        {
            let (a, b) = self.edges[i];
            assert(self.has_both_ends(self.edges@[i as int]));
            match (self.vertex(a), self.vertex(b)) {
                (Some(va), Some(vb)) => {
                    let p = self.screen_point(table, camera, va, width, height);
                    let q = self.screen_point(table, camera, vb, width, height);
                    match (p, q) {
                        (Some(p), Some(q)) => {
                            out.push(Line { char: EDGE_CHAR, points: (p, q) });
                        },
                        _ => {},
                    }
                },
                _ => {},
            }
            i += 1;
        }
        out
    }
}

/// Meshes, the camera that looks at them, and the sines that turning them
/// takes.
pub struct Renderer {
    pub meshs: Vec<Mesh>,
    pub camera: Camera,
    pub sines: SineTable,
}

impl Renderer {
    /// The table of sines and every mesh are well formed.
    pub open spec fn wf(&self) -> bool {
        &&& self.sines.wf()
        &&& forall|i: int| 0 <= i < self.meshs@.len() ==> (#[trigger] self.meshs@[i]).wf()
    }

    /// Whether every edge of every mesh has a vertex at both ends.
    pub open spec fn is_closed(&self) -> bool {
        forall|i: int| 0 <= i < self.meshs@.len() ==> (#[trigger] self.meshs@[i]).is_closed()
    }

    /// The segments that a drawing onto a screen of `width` by `height`
    /// cells consists of, in the order in which they are drawn: mesh after
    /// mesh, and within a mesh edge after edge.
    pub open spec fn scene(&self, width: int, height: int) -> Seq<Line> {
        scene_lines(
            &self.sines,
            self.meshs@,
            &self.camera,
            width,
            height,
            self.meshs@.len() as int,
        )
    }

    /// The first vertex that an edge names and its mesh does not have, going
    /// through the meshes in their order; none where every mesh is closed.
    pub fn missing_vertex(&self) -> (r: Option<MissingVertex>)
        requires
            self.wf(),
        ensures
            r == first_gap(self.meshs@, 0),
            r is None <==> self.is_closed(),
    {
        proof {
            lemma_first_gap(self.meshs@, 0);
        }
        let mut i: usize = 0;
        while i < self.meshs.len()
            invariant
                self.wf(),
                i <= self.meshs@.len(),
                first_gap(self.meshs@, 0) == first_gap(self.meshs@, i as int),
            decreases self.meshs@.len() - i,
        {
            match self.meshs[i].missing_vertex() {
                Some(index) => {
                    return Some(MissingVertex { mesh: i, index });
                },
                None => {},
            }
            i += 1;
        }
        None
    }

    /// The segments that a drawing onto a screen of `width` by `height`
    /// cells consists of.
    pub fn lines(&self, width: usize, height: usize) -> (r: Vec<Line>)
        requires
            self.wf(),
            self.is_closed(),
        ensures
            r@ == self.scene(width as int, height as int),
    {
        let mut out: Vec<Line> = Vec::new();
        let mut i: usize = 0;
        while i < self.meshs.len()
            invariant
                self.wf(),
                self.is_closed(),
                i <= self.meshs@.len(),
                out@ == scene_lines(
                    &self.sines,
                    self.meshs@,
                    &self.camera,
                    width as int,
                    height as int,
                    i as int,
                ),
            decreases self.meshs@.len() - i,
        {
            assert(self.meshs@[i as int].wf());
            assert(self.meshs@[i as int].is_closed());
            let mut more = self.meshs[i].lines(&self.sines, &self.camera, width, height);
            out.append(&mut more);
            i += 1;
        }
        out
    }

    /// Draws every edge of every mesh as the camera sees it: mesh after mesh
    /// and edge after edge, each edge clipped and marked with `EDGE_CHAR`, a
    /// later one over an earlier one where they share a cell. An edge with an
    /// end at the eye's depth or behind it is left out. Where an edge names a
    /// vertex that its mesh does not have, nothing is drawn and the first
    /// such vertex is reported.
    pub fn draw(&self, buf: &mut CharBuffer) -> (r: Result<(), MissingVertex>)
        requires
            self.wf(),
            old(buf).wf(),
        ensures
            final(buf).wf(),
            final(buf).spec_width() == old(buf).spec_width(),
            final(buf).spec_height() == old(buf).spec_height(),
            r is Ok <==> self.is_closed(),
            r is Err ==> first_gap(self.meshs@, 0) == Some(r->Err_0) && *final(buf) == *old(buf),
            r is Ok ==> forall|x: int, y: int|
                final(buf).in_grid(x, y) ==> #[trigger] final(buf).cell(x, y) == shown(
                    old(buf),
                    self.scene(old(buf).spec_width() as int, old(buf).spec_height() as int),
                    x,
                    y,
                ),
    {
        match self.missing_vertex() {
            Some(missing) => Err(missing),
            None => {
                let lines = self.lines(buf.width(), buf.height());
                buf.draw_lines(lines);
                Ok(())
            },
        }
    }
}

} // verus!
