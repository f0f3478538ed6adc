use vstd::prelude::*;
use crate::grid::{VoxelGrid, cell_at, cell_index, in_dims, lemma_encode, lemma_decode, dec_x, dec_y, dec_z};
use crate::merge::{
    box_fits, cleared, uniform, grow_h, grow_l, grow_w, grown_box, in_box, in_extent, merge_from, merged,
    MergedBox, MAX_EXTENT,
};

verus! {

/// The greedy merger is a function of the grid's contents: two grids with
/// equal dimensions and cells give the same boxes.
pub proof fn lemma_merge_deterministic(g1: VoxelGrid, g2: VoxelGrid)
    requires
        g1.dx == g2.dx,
        g1.dy == g2.dy,
        g1.dz == g2.dz,
        g1.cells@ == g2.cells@,
    ensures
        merged(g1) == merged(g2),
{
}

/// Cell `(a, b, c)` comes before cell `(x, y, z)` in scan order.
pub open spec fn scanned_before(x: int, y: int, z: int, a: int, b: int, c: int) -> bool {
    a < x || (a == x && b < y) || (a == x && b == y && c < z)
}

/// Every box lies inside the grid, is not empty, and every cell of it held
/// the box's color.
pub open spec fn boxes_match(cells: Seq<Option<u8>>, dx: int, dy: int, dz: int, bs: Seq<MergedBox>) -> bool {
    forall|i: int| 0 <= i < bs.len() ==> #[trigger] box_matches(cells, dx, dy, dz, bs[i])
}

/// The box is not empty, lies inside the grid, and every cell of it holds the
/// box's color.
pub open spec fn box_matches(cells: Seq<Option<u8>>, dx: int, dy: int, dz: int, r: MergedBox) -> bool {
    &&& r.w >= 1 && r.l >= 1 && r.h >= 1
    &&& box_fits(cells, dx, dy, dz, r.color, r.x as int, r.y as int, r.z as int, r.w as int, r.l as int, r.h as int)
}

/// No cell lies in two boxes.
pub open spec fn boxes_disjoint(bs: Seq<MergedBox>) -> bool {
    forall|i: int, j: int, a: int, b: int, c: int|
        0 <= i < j < bs.len() && #[trigger] in_box(bs[i], a, b, c) ==> !#[trigger] in_box(bs[j], a, b, c)
}

/// Every occupied cell of the grid lies in some box.
pub open spec fn boxes_cover(cells: Seq<Option<u8>>, dx: int, dy: int, dz: int, bs: Seq<MergedBox>) -> bool {
    forall|a: int, b: int, c: int|
        in_dims(dx, dy, dz, a, b, c) && (#[trigger] cell_at(cells, dx, dy, a, b, c)) is Some ==> exists|i: int|
            0 <= i < bs.len() && #[trigger] in_box(bs[i], a, b, c)
}

proof fn lemma_grow_h(cells: Seq<Option<u8>>, dx: int, dy: int, dz: int, v: u8, x: int, y: int, z: int, h: int)
    requires
        1 <= h <= MAX_EXTENT,
        box_fits(cells, dx, dy, dz, v, x, y, z, 1, 1, h),
    ensures
        h <= grow_h(cells, dx, dy, dz, v, x, y, z, h) <= MAX_EXTENT,
        box_fits(cells, dx, dy, dz, v, x, y, z, 1, 1, grow_h(cells, dx, dy, dz, v, x, y, z, h)),
    decreases MAX_EXTENT - h,
{
    if h < MAX_EXTENT && box_fits(cells, dx, dy, dz, v, x, y, z, 1, 1, h + 1) {
        lemma_grow_h(cells, dx, dy, dz, v, x, y, z, h + 1);
    }
}

proof fn lemma_grow_w(cells: Seq<Option<u8>>, dx: int, dy: int, dz: int, v: u8, x: int, y: int, z: int, h: int, w: int)
    requires
        1 <= w <= MAX_EXTENT,
        box_fits(cells, dx, dy, dz, v, x, y, z, w, 1, h),
    ensures
        w <= grow_w(cells, dx, dy, dz, v, x, y, z, h, w) <= MAX_EXTENT,
        box_fits(cells, dx, dy, dz, v, x, y, z, grow_w(cells, dx, dy, dz, v, x, y, z, h, w), 1, h),
    decreases MAX_EXTENT - w,
{
    if w < MAX_EXTENT && box_fits(cells, dx, dy, dz, v, x, y, z, w + 1, 1, h) {
        lemma_grow_w(cells, dx, dy, dz, v, x, y, z, h, w + 1);
    }
}

proof fn lemma_grow_l(cells: Seq<Option<u8>>, dx: int, dy: int, dz: int, v: u8, x: int, y: int, z: int, h: int, w: int, l: int)
    requires
        1 <= l <= MAX_EXTENT,
        box_fits(cells, dx, dy, dz, v, x, y, z, w, l, h),
    ensures
        l <= grow_l(cells, dx, dy, dz, v, x, y, z, h, w, l) <= MAX_EXTENT,
        box_fits(cells, dx, dy, dz, v, x, y, z, w, grow_l(cells, dx, dy, dz, v, x, y, z, h, w, l), h),
    decreases MAX_EXTENT - l,
{
    if l < MAX_EXTENT && box_fits(cells, dx, dy, dz, v, x, y, z, w, l + 1, h) {
        lemma_grow_l(cells, dx, dy, dz, v, x, y, z, h, w, l + 1);
    }
}

/// The box grown from an occupied cell lies in the grid and holds its color.
proof fn lemma_grown_box(cells: Seq<Option<u8>>, dx: int, dy: int, dz: int, v: u8, x: int, y: int, z: int)
    requires
        in_dims(dx, dy, dz, x, y, z),
        dx <= usize::MAX && dy <= usize::MAX && dz <= usize::MAX,
        cell_at(cells, dx, dy, x, y, z) == Some(v),
    ensures
        ({
            let b = grown_box(cells, dx, dy, dz, v, x, y, z);
            &&& 1 <= b.w <= MAX_EXTENT && 1 <= b.l <= MAX_EXTENT && 1 <= b.h <= MAX_EXTENT
            &&& b.x == x && b.y == y && b.z == z && b.color == v
            &&& box_fits(cells, dx, dy, dz, v, x, y, z, b.w as int, b.l as int, b.h as int)
        }),
{
    assert(box_fits(cells, dx, dy, dz, v, x, y, z, 1, 1, 1));
    lemma_grow_h(cells, dx, dy, dz, v, x, y, z, 1);
    let h = grow_h(cells, dx, dy, dz, v, x, y, z, 1);
    lemma_grow_w(cells, dx, dy, dz, v, x, y, z, h, 1);
    let w = grow_w(cells, dx, dy, dz, v, x, y, z, h, 1);
    lemma_grow_l(cells, dx, dy, dz, v, x, y, z, h, w, 1);
}

/// Reading a cell after a clear.
proof fn lemma_cleared_at(cells: Seq<Option<u8>>, dx: int, dy: int, dz: int, x: int, y: int, z: int, w: int, l: int, h: int, a: int, b: int, c: int)
    requires
        cells.len() == dx * dy * dz,
        in_dims(dx, dy, dz, a, b, c),
    ensures
        cell_at(cleared(cells, dx, dy, x, y, z, w, l, h), dx, dy, a, b, c) == if in_extent(x, y, z, w, l, h, a, b, c) {
            None
        } else {
            cell_at(cells, dx, dy, a, b, c)
        },
{
    lemma_encode(dx, dy, dz, a, b, c);
}

proof fn lemma_merge_from(cells: Seq<Option<u8>>, dx: int, dy: int, dz: int, x: int, y: int, z: int)
    requires
        cells.len() == dx * dy * dz,
        dx <= usize::MAX && dy <= usize::MAX && dz <= usize::MAX,
        0 <= x,
        0 <= y,
        0 <= z,
    ensures
        ({
            let bs = merge_from(cells, dx, dy, dz, x, y, z);
            &&& boxes_match(cells, dx, dy, dz, bs)
            &&& boxes_disjoint(bs)
            &&& forall|a: int, b: int, c: int|
                in_dims(dx, dy, dz, a, b, c) && !scanned_before(x, y, z, a, b, c) && (#[trigger] cell_at(cells, dx, dy, a, b, c)) is Some
                    ==> exists|i: int| 0 <= i < bs.len() && #[trigger] in_box(bs[i], a, b, c)
        }),
    decreases dx - x, dy - y, dz - z,
{
    let bs = merge_from(cells, dx, dy, dz, x, y, z);
    if x >= dx {
    } else if y >= dy {
        lemma_merge_from(cells, dx, dy, dz, x + 1, 0, 0);
    } else if z >= dz {
        lemma_merge_from(cells, dx, dy, dz, x, y + 1, 0);
    } else {
        match cell_at(cells, dx, dy, x, y, z) {
            None => {
                lemma_merge_from(cells, dx, dy, dz, x, y, z + 1);
            },
            Some(v) => {
                let bx = grown_box(cells, dx, dy, dz, v, x, y, z);
                let cl = cleared(cells, dx, dy, x, y, z, bx.w as int, bx.l as int, bx.h as int);
                let rest = merge_from(cl, dx, dy, dz, x, y, z + 1);
                lemma_grown_box(cells, dx, dy, dz, v, x, y, z);
                lemma_merge_from(cl, dx, dy, dz, x, y, z + 1);
                assert(bs == seq![bx] + rest);
                assert forall|i: int| 0 <= i < rest.len() implies #[trigger] bs[i + 1] == rest[i] by {}
                // boxes after the first hold only cells that the first did not clear
                assert forall|i: int| 0 <= i < bs.len() implies #[trigger] box_matches(cells, dx, dy, dz, bs[i]) by {
                    if i > 0 {
                        let r = rest[i - 1];
                        assert(box_matches(cl, dx, dy, dz, r));
                        assert(box_fits(cl, dx, dy, dz, r.color, r.x as int, r.y as int, r.z as int, r.w as int, r.l as int, r.h as int));
                        assert forall|a: int, b: int, c: int|
                            in_extent(r.x as int, r.y as int, r.z as int, r.w as int, r.l as int, r.h as int, a, b, c) implies #[trigger] cell_at(cells, dx, dy, a, b, c) == Some(r.color) by {
                            lemma_cleared_at(cells, dx, dy, dz, x, y, z, bx.w as int, bx.l as int, bx.h as int, a, b, c);
                            assert(cell_at(cl, dx, dy, a, b, c) == Some(r.color));
                        }
                    }
                }
                assert forall|i: int, j: int, a: int, b: int, c: int|
                    0 <= i < j < bs.len() && #[trigger] in_box(bs[i], a, b, c) implies !#[trigger] in_box(bs[j], a, b, c) by {
                    if i == 0 && in_box(bs[j], a, b, c) {
                        let r = rest[j - 1];
                        assert(box_matches(cl, dx, dy, dz, r));
                        assert(box_fits(cl, dx, dy, dz, r.color, r.x as int, r.y as int, r.z as int, r.w as int, r.l as int, r.h as int));
                        assert(cell_at(cl, dx, dy, a, b, c) == Some(r.color));
                        lemma_cleared_at(cells, dx, dy, dz, x, y, z, bx.w as int, bx.l as int, bx.h as int, a, b, c);
                    } else if i > 0 {
                        assert(in_box(rest[i - 1], a, b, c));
                    }
                }
                assert forall|a: int, b: int, c: int|
                    in_dims(dx, dy, dz, a, b, c) && !scanned_before(x, y, z, a, b, c) && (#[trigger] cell_at(cells, dx, dy, a, b, c)) is Some
                        implies exists|i: int| 0 <= i < bs.len() && #[trigger] in_box(bs[i], a, b, c) by {
                    if in_box(bx, a, b, c) {
                        assert(in_box(bs[0], a, b, c));
                    } else {
                        lemma_cleared_at(cells, dx, dy, dz, x, y, z, bx.w as int, bx.l as int, bx.h as int, a, b, c);
                        assert(cell_at(cl, dx, dy, a, b, c) is Some);
                        assert(!scanned_before(x, y, z + 1, a, b, c));
                        let i = choose|i: int| 0 <= i < rest.len() && #[trigger] in_box(rest[i], a, b, c);
                        assert(in_box(bs[i + 1], a, b, c));
                    }
                }
            },
        }
    }
}

/// The merged boxes of a grid do not overlap, each lies inside the grid and
/// holds only cells of its own color, and together they cover every occupied
/// cell: re-expanded to cells, they give back the grid's contents exactly.
pub proof fn lemma_merge_partitions(g: VoxelGrid)
    requires
        g.wf(),
    ensures
        boxes_match(g.cells@, g.dx as int, g.dy as int, g.dz as int, merged(g)),
        boxes_disjoint(merged(g)),
        boxes_cover(g.cells@, g.dx as int, g.dy as int, g.dz as int, merged(g)),
{
    lemma_merge_from(g.cells@, g.dx as int, g.dy as int, g.dz as int, 0, 0, 0);
    let bs = merged(g);
    assert forall|a: int, b: int, c: int|
        in_dims(g.dx as int, g.dy as int, g.dz as int, a, b, c) && (#[trigger] cell_at(g.cells@, g.dx as int, g.dy as int, a, b, c)) is Some
            implies exists|i: int| 0 <= i < bs.len() && #[trigger] in_box(bs[i], a, b, c) by {
        assert(!scanned_before(0, 0, 0, a, b, c));
    }
}

/// The number of occupied cells.
pub open spec fn occupied(s: Seq<Option<u8>>) -> int
    decreases s.len(),
{
    if s.len() == 0 {
        0
    } else {
        occupied(s.drop_last()) + if s.last() is Some {
            1int
        } else {
            0int
        }
    }
}

/// The number of cells of a box.
pub open spec fn volume(b: MergedBox) -> int {
    b.w * b.l * b.h
}

/// The number of cells of all boxes together.
pub open spec fn total_volume(bs: Seq<MergedBox>) -> int
    decreases bs.len(),
{
    if bs.len() == 0 {
        0
    } else {
        volume(bs[0]) + total_volume(bs.subrange(1, bs.len() as int))
    }
}

proof fn lemma_occupied_update(s: Seq<Option<u8>>, n: int)
    requires
        0 <= n < s.len(),
        s[n] is Some,
    ensures
        occupied(s.update(n, None)) == occupied(s) - 1,
    decreases s.len(),
{
    let t = s.update(n, None);
    if n < s.len() - 1 {
        assert(t.drop_last() =~= s.drop_last().update(n, None));
        lemma_occupied_update(s.drop_last(), n);
    } else {
        assert(t.drop_last() =~= s.drop_last());
    }
}

proof fn lemma_occupied_empty(s: Seq<Option<u8>>)
    requires
        forall|i: int| 0 <= i < s.len() ==> s[i] is None,
    ensures
        occupied(s) == 0,
    decreases s.len(),
{
    if s.len() > 0 {
        lemma_occupied_empty(s.drop_last());
    }
}

proof fn lemma_clear_column_count(cells: Seq<Option<u8>>, dx: int, dy: int, dz: int, v: u8, x: int, y: int, z: int, k: int)
    requires
        cells.len() == dx * dy * dz,
        0 <= x < dx,
        0 <= y < dy,
        0 <= z,
        0 <= k,
        z + k <= dz,
        uniform(cells, dx, dy, v, x, y, z, 1, 1, k),
    ensures
        occupied(cleared(cells, dx, dy, x, y, z, 1, 1, k)) == occupied(cells) - k,
    decreases k,
{
    if k == 0 {
        assert(cleared(cells, dx, dy, x, y, z, 1, 1, 0) =~= cells);
    } else {
        lemma_clear_column_count(cells, dx, dy, dz, v, x, y, z, k - 1);
        let prev = cleared(cells, dx, dy, x, y, z, 1, 1, k - 1);
        let n = cell_index(dx, dy, x, y, z + k - 1);
        lemma_encode(dx, dy, dz, x, y, z + k - 1);
        assert(in_extent(x, y, z, 1, 1, k, x, y, z + k - 1));
        assert(cell_at(cells, dx, dy, x, y, z + k - 1) == Some(v));
        lemma_occupied_update(prev, n);
        let next = cleared(cells, dx, dy, x, y, z, 1, 1, k);
        assert forall|m: int| 0 <= m < cells.len() implies prev.update(n, None)[m] == next[m] by {
            lemma_decode(dx, dy, dz, m);
        }
        assert(prev.update(n, None) =~= next);
    }
}

proof fn lemma_clear_slab_count(cells: Seq<Option<u8>>, dx: int, dy: int, dz: int, v: u8, x: int, y: int, z: int, j: int, h: int)
    requires
        cells.len() == dx * dy * dz,
        0 <= x < dx,
        0 <= y,
        0 <= z,
        0 <= j,
        0 <= h,
        y + j <= dy,
        z + h <= dz,
        uniform(cells, dx, dy, v, x, y, z, 1, j, h),
    ensures
        occupied(cleared(cells, dx, dy, x, y, z, 1, j, h)) == occupied(cells) - j * h,
    decreases j,
{
    if j == 0 {
        assert(cleared(cells, dx, dy, x, y, z, 1, 0, h) =~= cells);
    } else {
        lemma_clear_slab_count(cells, dx, dy, dz, v, x, y, z, j - 1, h);
        let prev = cleared(cells, dx, dy, x, y, z, 1, j - 1, h);
        assert forall|a: int, b: int, c: int|
            in_extent(x, y + j - 1, z, 1, 1, h, a, b, c) implies #[trigger] cell_at(prev, dx, dy, a, b, c) == Some(v) by {
            lemma_cleared_at(cells, dx, dy, dz, x, y, z, 1, j - 1, h, a, b, c);
            assert(in_extent(x, y, z, 1, j, h, a, b, c));
        }
        lemma_clear_column_count(prev, dx, dy, dz, v, x, y + j - 1, z, h);
        assert(cleared(prev, dx, dy, x, y + j - 1, z, 1, 1, h) =~= cleared(cells, dx, dy, x, y, z, 1, j, h));
        assert((j - 1) * h + h == j * h) by (nonlinear_arith);
    }
}

proof fn lemma_clear_box_count(cells: Seq<Option<u8>>, dx: int, dy: int, dz: int, v: u8, x: int, y: int, z: int, i: int, l: int, h: int)
    requires
        cells.len() == dx * dy * dz,
        0 <= x,
        0 <= y,
        0 <= z,
        0 <= i,
        0 <= l,
        0 <= h,
        x + i <= dx,
        y + l <= dy,
        z + h <= dz,
        uniform(cells, dx, dy, v, x, y, z, i, l, h),
    ensures
        occupied(cleared(cells, dx, dy, x, y, z, i, l, h)) == occupied(cells) - i * l * h,
    decreases i,
{
    if i == 0 {
        assert(cleared(cells, dx, dy, x, y, z, 0, l, h) =~= cells);
    } else {
        lemma_clear_box_count(cells, dx, dy, dz, v, x, y, z, i - 1, l, h);
        let prev = cleared(cells, dx, dy, x, y, z, i - 1, l, h);
        assert forall|a: int, b: int, c: int|
            in_extent(x + i - 1, y, z, 1, l, h, a, b, c) implies #[trigger] cell_at(prev, dx, dy, a, b, c) == Some(v) by {
            lemma_cleared_at(cells, dx, dy, dz, x, y, z, i - 1, l, h, a, b, c);
            assert(in_extent(x, y, z, i, l, h, a, b, c));
        }
        lemma_clear_slab_count(prev, dx, dy, dz, v, x + i - 1, y, z, l, h);
        assert(cleared(prev, dx, dy, x + i - 1, y, z, 1, l, h) =~= cleared(cells, dx, dy, x, y, z, i, l, h));
        assert((i - 1) * l * h + l * h == i * l * h) by (nonlinear_arith);
    }
}

pub(crate) proof fn lemma_merge_volume(cells: Seq<Option<u8>>, dx: int, dy: int, dz: int, x: int, y: int, z: int)
    requires
        cells.len() == dx * dy * dz,
        0 <= dx && 0 <= dy && 0 <= dz,
        dx <= usize::MAX && dy <= usize::MAX && dz <= usize::MAX,
        0 <= x,
        0 <= y,
        0 <= z,
        forall|a: int, b: int, c: int|
            in_dims(dx, dy, dz, a, b, c) && scanned_before(x, y, z, a, b, c) ==> #[trigger] cell_at(cells, dx, dy, a, b, c) is None,
    ensures
        total_volume(merge_from(cells, dx, dy, dz, x, y, z)) == occupied(cells),
    decreases dx - x, dy - y, dz - z,
{
    if x >= dx {
        assert forall|m: int| 0 <= m < cells.len() implies cells[m] is None by {
            lemma_decode(dx, dy, dz, m);
            assert(cell_at(cells, dx, dy, dec_x(dx, dy, m), dec_y(dx, dy, m), dec_z(dx, dy, m)) is None);
        }
        lemma_occupied_empty(cells);
    } else if y >= dy {
        lemma_merge_volume(cells, dx, dy, dz, x + 1, 0, 0);
    } else if z >= dz {
        lemma_merge_volume(cells, dx, dy, dz, x, y + 1, 0);
    } else {
        match cell_at(cells, dx, dy, x, y, z) {
            None => {
                lemma_merge_volume(cells, dx, dy, dz, x, y, z + 1);
            },
            Some(v) => {
                let bx = grown_box(cells, dx, dy, dz, v, x, y, z);
                let (w, l, h) = (bx.w as int, bx.l as int, bx.h as int);
                let cl = cleared(cells, dx, dy, x, y, z, w, l, h);
                lemma_grown_box(cells, dx, dy, dz, v, x, y, z);
                assert forall|a: int, b: int, c: int|
                    in_dims(dx, dy, dz, a, b, c) && scanned_before(x, y, z + 1, a, b, c) implies #[trigger] cell_at(cl, dx, dy, a, b, c) is None by {
                    lemma_cleared_at(cells, dx, dy, dz, x, y, z, w, l, h, a, b, c);
                    if !scanned_before(x, y, z, a, b, c) {
                        assert(in_extent(x, y, z, w, l, h, a, b, c));
                    }
                }
                lemma_merge_volume(cl, dx, dy, dz, x, y, z + 1);
                lemma_clear_box_count(cells, dx, dy, dz, v, x, y, z, w, l, h);
                let rest = merge_from(cl, dx, dy, dz, x, y, z + 1);
                let bs = merge_from(cells, dx, dy, dz, x, y, z);
                assert(bs == seq![bx] + rest);
                assert(bs.subrange(1, bs.len() as int) =~= rest);
            },
        }
    }
}

/// The merged boxes hold as many cells together as the grid has occupied
/// cells.
pub proof fn lemma_merge_keeps_volume(g: VoxelGrid)
    requires
        g.wf(),
    ensures
        total_volume(merged(g)) == occupied(g.cells@),
{
    lemma_merge_volume(g.cells@, g.dx as int, g.dy as int, g.dz as int, 0, 0, 0);
}

/// Box `r` starts before box `t` in scan order.
pub open spec fn starts_before(r: MergedBox, t: MergedBox) -> bool {
    scanned_before(t.x as int, t.y as int, t.z as int, r.x as int, r.y as int, r.z as int)
}

proof fn lemma_merge_order(cells: Seq<Option<u8>>, dx: int, dy: int, dz: int, x: int, y: int, z: int)
    requires
        cells.len() == dx * dy * dz,
        dx <= usize::MAX && dy <= usize::MAX && dz <= usize::MAX,
        0 <= x,
        0 <= y,
        0 <= z,
    ensures
        ({
            let bs = merge_from(cells, dx, dy, dz, x, y, z);
            &&& forall|i: int| 0 <= i < bs.len() ==> !scanned_before(x, y, z, #[trigger] bs[i].x as int, bs[i].y as int, bs[i].z as int)
            &&& forall|i: int, j: int| 0 <= i < j < bs.len() ==> starts_before(#[trigger] bs[i], #[trigger] bs[j])
        }),
    decreases dx - x, dy - y, dz - z,
{
    if x >= dx {
    } else if y >= dy {
        lemma_merge_order(cells, dx, dy, dz, x + 1, 0, 0);
        let bs = merge_from(cells, dx, dy, dz, x, y, z);
        assert(bs == merge_from(cells, dx, dy, dz, x + 1, 0, 0));
        assert forall|i: int| 0 <= i < bs.len() implies !scanned_before(x, y, z, #[trigger] bs[i].x as int, bs[i].y as int, bs[i].z as int) by {
            assert(!scanned_before(x + 1, 0, 0, bs[i].x as int, bs[i].y as int, bs[i].z as int));
        }
    } else if z >= dz {
        lemma_merge_order(cells, dx, dy, dz, x, y + 1, 0);
        let bs = merge_from(cells, dx, dy, dz, x, y, z);
        assert(bs == merge_from(cells, dx, dy, dz, x, y + 1, 0));
        assert forall|i: int| 0 <= i < bs.len() implies !scanned_before(x, y, z, #[trigger] bs[i].x as int, bs[i].y as int, bs[i].z as int) by {
            assert(!scanned_before(x, y + 1, 0, bs[i].x as int, bs[i].y as int, bs[i].z as int));
        }
    } else {
        match cell_at(cells, dx, dy, x, y, z) {
            None => {
                lemma_merge_order(cells, dx, dy, dz, x, y, z + 1);
                let bs = merge_from(cells, dx, dy, dz, x, y, z);
                assert(bs == merge_from(cells, dx, dy, dz, x, y, z + 1));
                assert forall|i: int| 0 <= i < bs.len() implies !scanned_before(x, y, z, #[trigger] bs[i].x as int, bs[i].y as int, bs[i].z as int) by {
                    assert(!scanned_before(x, y, z + 1, bs[i].x as int, bs[i].y as int, bs[i].z as int));
                }
            },
            Some(v) => {
                let bx = grown_box(cells, dx, dy, dz, v, x, y, z);
                let cl = cleared(cells, dx, dy, x, y, z, bx.w as int, bx.l as int, bx.h as int);
                let rest = merge_from(cl, dx, dy, dz, x, y, z + 1);
                let bs = merge_from(cells, dx, dy, dz, x, y, z);
                lemma_grown_box(cells, dx, dy, dz, v, x, y, z);
                lemma_merge_order(cl, dx, dy, dz, x, y, z + 1);
                assert(bs == seq![bx] + rest);
                assert forall|i: int| 0 <= i < rest.len() implies #[trigger] bs[i + 1] == rest[i] by {}
                assert forall|i: int| 0 <= i < bs.len() implies !scanned_before(x, y, z, #[trigger] bs[i].x as int, bs[i].y as int, bs[i].z as int) by {
                    if i > 0 {
                        assert(!scanned_before(x, y, z + 1, rest[i - 1].x as int, rest[i - 1].y as int, rest[i - 1].z as int));
                    }
                }
                assert forall|i: int, j: int| 0 <= i < j < bs.len() implies starts_before(#[trigger] bs[i], #[trigger] bs[j]) by {
                    assert(bs[j] == rest[j - 1]);
                    assert(!scanned_before(x, y, z + 1, rest[j - 1].x as int, rest[j - 1].y as int, rest[j - 1].z as int));
                    if i > 0 {
                        assert(bs[i] == rest[i - 1]);
                        assert(starts_before(rest[i - 1], rest[j - 1]));
                    }
                }
            },
        }
    }
}

/// The merged boxes come out in scan order of their first cell: x, then y,
/// then z, ascending.
pub proof fn lemma_merge_scan_order(g: VoxelGrid)
    requires
        g.wf(),
    ensures
        forall|i: int, j: int| 0 <= i < j < merged(g).len() ==> starts_before(#[trigger] merged(g)[i], #[trigger] merged(g)[j]),
{
    lemma_merge_order(g.cells@, g.dx as int, g.dy as int, g.dz as int, 0, 0, 0);
}

} // verus!
