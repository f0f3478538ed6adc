use vstd::prelude::*;
use crate::grid::{VoxelGrid, cell_at, in_dims, dec_x, dec_y, dec_z, flat_index, lemma_encode, lemma_decode};

verus! {

/// The largest extent of a merged box along any axis.
pub const MAX_EXTENT: usize = 64;

/// A box of grid cells: minimum corner, extents along x, y and z, and color.
#[derive(Clone, Copy, Debug, PartialEq, Eq, Structural)]
pub struct MergedBox {
    pub x: usize,
    pub y: usize,
    pub z: usize,
    pub w: usize,
    pub l: usize,
    pub h: usize,
    pub color: u8,
}

pub open spec fn in_extent(x: int, y: int, z: int, w: int, l: int, h: int, a: int, b: int, c: int) -> bool {
    x <= a < x + w && y <= b < y + l && z <= c < z + h
}

pub open spec fn in_box(bx: MergedBox, a: int, b: int, c: int) -> bool {
    in_extent(bx.x as int, bx.y as int, bx.z as int, bx.w as int, bx.l as int, bx.h as int, a, b, c)
}

/// Every cell of the extent holds `v`.
pub open spec fn uniform(
    cells: Seq<Option<u8>>,
    dx: int,
    dy: int,
    v: u8,
    x: int,
    y: int,
    z: int,
    w: int,
    l: int,
    h: int,
) -> bool {
    forall|a: int, b: int, c: int|
        in_extent(x, y, z, w, l, h, a, b, c) ==> #[trigger] cell_at(cells, dx, dy, a, b, c) == Some(v)
}

/// The extent lies inside the grid and every cell of it holds `v`.
pub open spec fn box_fits(
    cells: Seq<Option<u8>>,
    dx: int,
    dy: int,
    dz: int,
    v: u8,
    x: int,
    y: int,
    z: int,
    w: int,
    l: int,
    h: int,
) -> bool {
    x + w <= dx && y + l <= dy && z + h <= dz && uniform(cells, dx, dy, v, x, y, z, w, l, h)
}

/// Height reached by growing a one-cell column upward from height `h`.
pub open spec fn grow_h(cells: Seq<Option<u8>>, dx: int, dy: int, dz: int, v: u8, x: int, y: int, z: int, h: int) -> int
    decreases MAX_EXTENT - h,
{
    if h < MAX_EXTENT && box_fits(cells, dx, dy, dz, v, x, y, z, 1, 1, h + 1) {
        grow_h(cells, dx, dy, dz, v, x, y, z, h + 1)
    } else {
        h
    }
}

/// Width reached by growing a column of height `h` along x from width `w`.
pub open spec fn grow_w(
    cells: Seq<Option<u8>>,
    dx: int,
    dy: int,
    dz: int,
    v: u8,
    x: int,
    y: int,
    z: int,
    h: int,
    w: int,
) -> int
    decreases MAX_EXTENT - w,
{
    if w < MAX_EXTENT && box_fits(cells, dx, dy, dz, v, x, y, z, w + 1, 1, h) {
        grow_w(cells, dx, dy, dz, v, x, y, z, h, w + 1)
    } else {
        w
    }
}

/// Length reached by growing a `w` by `h` wall along y from length `l`.
pub open spec fn grow_l(
    cells: Seq<Option<u8>>,
    dx: int,
    dy: int,
    dz: int,
    v: u8,
    x: int,
    y: int,
    z: int,
    h: int,
    w: int,
    l: int,
) -> int
    decreases MAX_EXTENT - l,
{
    if l < MAX_EXTENT && box_fits(cells, dx, dy, dz, v, x, y, z, w, l + 1, h) {
        grow_l(cells, dx, dy, dz, v, x, y, z, h, w, l + 1)
    } else {
        l
    }
}

/// The box grown from the occupied cell `(x, y, z)` of color `v`: height
/// first, then width, then length.
pub open spec fn grown_box(cells: Seq<Option<u8>>, dx: int, dy: int, dz: int, v: u8, x: int, y: int, z: int) -> MergedBox {
    let h = grow_h(cells, dx, dy, dz, v, x, y, z, 1);
    let w = grow_w(cells, dx, dy, dz, v, x, y, z, h, 1);
    let l = grow_l(cells, dx, dy, dz, v, x, y, z, h, w, 1);
    MergedBox { x: x as usize, y: y as usize, z: z as usize, w: w as usize, l: l as usize, h: h as usize, color: v }
}

/// `cells` with every cell of the extent set to `val`.
pub open spec fn filled(
    cells: Seq<Option<u8>>,
    dx: int,
    dy: int,
    x: int,
    y: int,
    z: int,
    w: int,
    l: int,
    h: int,
    val: Option<u8>,
) -> Seq<Option<u8>> {
    Seq::new(
        cells.len(),
        |i: int|
            if in_extent(x, y, z, w, l, h, dec_x(dx, dy, i), dec_y(dx, dy, i), dec_z(dx, dy, i)) {
                val
            } else {
                cells[i]
            },
    )
}

/// `cells` with every cell of the extent made empty.
pub open spec fn cleared(
    cells: Seq<Option<u8>>,
    dx: int,
    dy: int,
    x: int,
    y: int,
    z: int,
    w: int,
    l: int,
    h: int,
) -> Seq<Option<u8>> {
    filled(cells, dx, dy, x, y, z, w, l, h, None)
}

/// The boxes that the scan emits from cell `(x, y, z)` on, in scan order:
/// x outermost, then y, then z innermost.
pub open spec fn merge_from(cells: Seq<Option<u8>>, dx: int, dy: int, dz: int, x: int, y: int, z: int) -> Seq<MergedBox>
    decreases dx - x, dy - y, dz - z,
{
    if x >= dx {
        seq![]
    } else if y >= dy {
        merge_from(cells, dx, dy, dz, x + 1, 0, 0)
    } else if z >= dz {
        merge_from(cells, dx, dy, dz, x, y + 1, 0)
    } else {
        match cell_at(cells, dx, dy, x, y, z) {
            Some(v) => {
                let b = grown_box(cells, dx, dy, dz, v, x, y, z);
                seq![b] + merge_from(
                    cleared(cells, dx, dy, x, y, z, b.w as int, b.l as int, b.h as int),
                    dx,
                    dy,
                    dz,
                    x,
                    y,
                    z + 1,
                )
            },
            None => merge_from(cells, dx, dy, dz, x, y, z + 1),
        }
    }
}

/// The boxes that the greedy merger makes of a whole grid.
pub open spec fn merged(g: VoxelGrid) -> Seq<MergedBox> {
    merge_from(g.cells@, g.dx as int, g.dy as int, g.dz as int, 0, 0, 0)
}

fn holds(c: Option<u8>, v: u8) -> (r: bool)
    ensures
        r == (c == Some(v)),
{
    match c {
        Some(u) => u == v,
        None => false,
    }
}

fn column_uniform(cells: &Vec<Option<u8>>, dx: usize, dy: usize, dz: usize, v: u8, x: usize, y: usize, z: usize, h: usize) -> (r: bool)
    requires
        cells@.len() == dx * dy * dz,
        cells@.len() <= usize::MAX,
        x < dx,
        y < dy,
        z + h <= dz,
    ensures
        r == uniform(cells@, dx as int, dy as int, v, x as int, y as int, z as int, 1, 1, h as int),
{
    let mut k: usize = 0;
    while k < h
        invariant
            k <= h,
            cells@.len() == dx * dy * dz,
            cells@.len() <= usize::MAX,
            x < dx,
            y < dy,
            z + h <= dz,
            forall|c: int| z <= c < z + k ==> #[trigger] cell_at(cells@, dx as int, dy as int, x as int, y as int, c) == Some(v),
        decreases h - k,
    {
        let i = flat_index(dx, dy, dz, x, y, z + k);
        if !holds(cells[i], v) {
            assert(cell_at(cells@, dx as int, dy as int, x as int, y as int, (z + k) as int) != Some(v));
            assert(in_extent(x as int, y as int, z as int, 1, 1, h as int, x as int, y as int, z + k));
            return false;
        }
        k += 1;
    }
    true
}

fn slab_uniform(cells: &Vec<Option<u8>>, dx: usize, dy: usize, dz: usize, v: u8, x: usize, y: usize, z: usize, l: usize, h: usize) -> (r: bool)
    requires
        cells@.len() == dx * dy * dz,
        cells@.len() <= usize::MAX,
        x < dx,
        y + l <= dy,
        z + h <= dz,
    ensures
        r == uniform(cells@, dx as int, dy as int, v, x as int, y as int, z as int, 1, l as int, h as int),
{
    let mut j: usize = 0;
    while j < l
        invariant
            j <= l,
            cells@.len() == dx * dy * dz,
            cells@.len() <= usize::MAX,
            x < dx,
            y + l <= dy,
            z + h <= dz,
            uniform(cells@, dx as int, dy as int, v, x as int, y as int, z as int, 1, j as int, h as int),
        decreases l - j,
    {
        if !column_uniform(cells, dx, dy, dz, v, x, y + j, z, h) {
            return false;
        }
        j += 1;
    }
    true
}

fn box_uniform(cells: &Vec<Option<u8>>, dx: usize, dy: usize, dz: usize, v: u8, x: usize, y: usize, z: usize, w: usize, l: usize, h: usize) -> (r: bool)
    requires
        cells@.len() == dx * dy * dz,
        cells@.len() <= usize::MAX,
        x < dx,
        y < dy,
        z < dz,
    ensures
        r == box_fits(cells@, dx as int, dy as int, dz as int, v, x as int, y as int, z as int, w as int, l as int, h as int),
{
    if w > dx - x || l > dy - y || h > dz - z {
        return false;
    }
    let mut i: usize = 0;
    while i < w
        invariant
            i <= w,
            cells@.len() == dx * dy * dz,
            cells@.len() <= usize::MAX,
            x + w <= dx,
            y + l <= dy,
            z + h <= dz,
            uniform(cells@, dx as int, dy as int, v, x as int, y as int, z as int, i as int, l as int, h as int),
        decreases w - i,
    {
        if !slab_uniform(cells, dx, dy, dz, v, x + i, y, z, l, h) {
            return false;
        }
        i += 1;
    }
    true
}

pub(crate) fn fill_column(cells: &mut Vec<Option<u8>>, dx: usize, dy: usize, dz: usize, x: usize, y: usize, z: usize, h: usize, val: Option<u8>)
    requires
        old(cells)@.len() == dx * dy * dz,
        old(cells)@.len() <= usize::MAX,
        x < dx,
        y < dy,
        z + h <= dz,
    ensures
        final(cells)@ == filled(old(cells)@, dx as int, dy as int, x as int, y as int, z as int, 1, 1, h as int, val),
{
    let ghost start = cells@;
    let mut k: usize = 0;
    assert(cells@ =~= filled(start, dx as int, dy as int, x as int, y as int, z as int, 1, 1, 0, val));
    while k < h
        invariant
            k <= h,
            start.len() == dx * dy * dz,
            start.len() <= usize::MAX,
            x < dx,
            y < dy,
            z + h <= dz,
            cells@ == filled(start, dx as int, dy as int, x as int, y as int, z as int, 1, 1, k as int, val),
        decreases h - k,
    {
        let i = flat_index(dx, dy, dz, x, y, z + k);
        cells.set(i, val);
        proof {
            lemma_encode(dx as int, dy as int, dz as int, x as int, y as int, (z + k) as int);
            let next = filled(start, dx as int, dy as int, x as int, y as int, z as int, 1, 1, k + 1, val);
            assert forall|m: int| 0 <= m < start.len() implies cells@[m] == next[m] by {
                lemma_decode(dx as int, dy as int, dz as int, m);
            }
            assert(cells@ =~= next);
        }
        k += 1;
    }
}

pub(crate) fn fill_slab(cells: &mut Vec<Option<u8>>, dx: usize, dy: usize, dz: usize, x: usize, y: usize, z: usize, l: usize, h: usize, val: Option<u8>)
    requires
        old(cells)@.len() == dx * dy * dz,
        old(cells)@.len() <= usize::MAX,
        x < dx,
        y + l <= dy,
        z + h <= dz,
    ensures
        final(cells)@ == filled(old(cells)@, dx as int, dy as int, x as int, y as int, z as int, 1, l as int, h as int, val),
{
    let ghost start = cells@;
    let mut j: usize = 0;
    assert(cells@ =~= filled(start, dx as int, dy as int, x as int, y as int, z as int, 1, 0, h as int, val));
    while j < l
        invariant
            j <= l,
            start.len() == dx * dy * dz,
            start.len() <= usize::MAX,
            x < dx,
            y + l <= dy,
            z + h <= dz,
            cells@ == filled(start, dx as int, dy as int, x as int, y as int, z as int, 1, j as int, h as int, val),
        decreases l - j,
    {
        fill_column(cells, dx, dy, dz, x, y + j, z, h, val);
        assert(cells@ =~= filled(start, dx as int, dy as int, x as int, y as int, z as int, 1, j + 1, h as int, val));
        j += 1;
    }
}

/// Sets every cell of the extent to `val`.
pub(crate) fn fill_box(cells: &mut Vec<Option<u8>>, dx: usize, dy: usize, dz: usize, x: usize, y: usize, z: usize, w: usize, l: usize, h: usize, val: Option<u8>)
    requires
        old(cells)@.len() == dx * dy * dz,
        old(cells)@.len() <= usize::MAX,
        x + w <= dx,
        y + l <= dy,
        z + h <= dz,
    ensures
        final(cells)@ == filled(old(cells)@, dx as int, dy as int, x as int, y as int, z as int, w as int, l as int, h as int, val),
{
    let ghost start = cells@;
    let mut i: usize = 0;
    assert(cells@ =~= filled(start, dx as int, dy as int, x as int, y as int, z as int, 0, l as int, h as int, val));
    while i < w
        invariant
            i <= w,
            start.len() == dx * dy * dz,
            start.len() <= usize::MAX,
            x + w <= dx,
            y + l <= dy,
            z + h <= dz,
            cells@ == filled(start, dx as int, dy as int, x as int, y as int, z as int, i as int, l as int, h as int, val),
        decreases w - i,
    {
        fill_slab(cells, dx, dy, dz, x + i, y, z, l, h, val);
        assert(cells@ =~= filled(start, dx as int, dy as int, x as int, y as int, z as int, i + 1, l as int, h as int, val));
        i += 1;
    }
}

fn grow_box(cells: &Vec<Option<u8>>, dx: usize, dy: usize, dz: usize, v: u8, x: usize, y: usize, z: usize) -> (b: MergedBox)
    requires
        cells@.len() == dx * dy * dz,
        cells@.len() <= usize::MAX,
        in_dims(dx as int, dy as int, dz as int, x as int, y as int, z as int),
    ensures
        b == grown_box(cells@, dx as int, dy as int, dz as int, v, x as int, y as int, z as int),
        1 <= b.h <= MAX_EXTENT,
        1 <= b.w <= MAX_EXTENT,
        1 <= b.l <= MAX_EXTENT,
        x + b.w <= dx,
        y + b.l <= dy,
        z + b.h <= dz,
{
    let ghost c = cells@;
    let mut h: usize = 1;
    while h < MAX_EXTENT && box_uniform(cells, dx, dy, dz, v, x, y, z, 1, 1, h + 1)
        invariant
            1 <= h <= MAX_EXTENT,
            z + h <= dz,
            c == cells@,
            cells@.len() == dx * dy * dz,
            cells@.len() <= usize::MAX,
            in_dims(dx as int, dy as int, dz as int, x as int, y as int, z as int),
            grow_h(c, dx as int, dy as int, dz as int, v, x as int, y as int, z as int, 1)
                == grow_h(c, dx as int, dy as int, dz as int, v, x as int, y as int, z as int, h as int),
        decreases MAX_EXTENT - h,
    {
        h += 1;
    }
    let mut w: usize = 1;
    while w < MAX_EXTENT && box_uniform(cells, dx, dy, dz, v, x, y, z, w + 1, 1, h)
        invariant
            1 <= h <= MAX_EXTENT,
            1 <= w <= MAX_EXTENT,
            z + h <= dz,
            x + w <= dx,
            c == cells@,
            cells@.len() == dx * dy * dz,
            cells@.len() <= usize::MAX,
            in_dims(dx as int, dy as int, dz as int, x as int, y as int, z as int),
            grow_w(c, dx as int, dy as int, dz as int, v, x as int, y as int, z as int, h as int, 1)
                == grow_w(c, dx as int, dy as int, dz as int, v, x as int, y as int, z as int, h as int, w as int),
        decreases MAX_EXTENT - w,
    {
        w += 1;
    }
    let mut l: usize = 1;
    while l < MAX_EXTENT && box_uniform(cells, dx, dy, dz, v, x, y, z, w, l + 1, h)
        invariant
            1 <= h <= MAX_EXTENT,
            1 <= w <= MAX_EXTENT,
            1 <= l <= MAX_EXTENT,
            y + l <= dy,
            c == cells@,
            cells@.len() == dx * dy * dz,
            cells@.len() <= usize::MAX,
            in_dims(dx as int, dy as int, dz as int, x as int, y as int, z as int),
            grow_l(c, dx as int, dy as int, dz as int, v, x as int, y as int, z as int, h as int, w as int, 1)
                == grow_l(c, dx as int, dy as int, dz as int, v, x as int, y as int, z as int, h as int, w as int, l as int),
        decreases MAX_EXTENT - l,
    {
        l += 1;
    }
    MergedBox { x, y, z, w, l, h, color: v }
}

/// Replaces the occupied cells of `g` by boxes of one color each: scanning x,
/// then y, then z in ascending order, each still occupied cell grows a box
/// upward, then along x, then along y, as far as the cells hold its color and
/// up to `MAX_EXTENT` along each axis; the box's cells are then emptied.
pub fn merge_boxes(g: VoxelGrid) -> (out: Vec<MergedBox>)
    requires
        g.wf(),
    ensures
        out@ == merged(g),
{
    let VoxelGrid { dx, dy, dz, cells } = g;
    let mut cells = cells;
    let ghost dxi = dx as int;
    let ghost dyi = dy as int;
    let ghost dzi = dz as int;
    let ghost total = merge_from(cells@, dxi, dyi, dzi, 0, 0, 0);
    let n = cells.len();
    assert(cells@.len() <= usize::MAX);
    let mut out: Vec<MergedBox> = Vec::new();
    let mut x: usize = 0;
    while x < dx
        invariant
            x <= dx,
            cells@.len() == dx * dy * dz,
            cells@.len() <= usize::MAX,
            out@ + merge_from(cells@, dxi, dyi, dzi, x as int, 0, 0) == total,
            dxi == dx, dyi == dy, dzi == dz,
        decreases dx - x,
    {
        let mut y: usize = 0;
        while y < dy
            invariant
                x < dx,
                y <= dy,
                cells@.len() == dx * dy * dz,
                cells@.len() <= usize::MAX,
                out@ + merge_from(cells@, dxi, dyi, dzi, x as int, y as int, 0) == total,
                dxi == dx, dyi == dy, dzi == dz,
            decreases dy - y,
        {
            let mut z: usize = 0;
            while z < dz
                invariant
                    x < dx,
                    y < dy,
                    z <= dz,
                    cells@.len() == dx * dy * dz,
                    cells@.len() <= usize::MAX,
                    out@ + merge_from(cells@, dxi, dyi, dzi, x as int, y as int, z as int) == total,
                    dxi == dx, dyi == dy, dzi == dz,
                decreases dz - z,
            {
                let i = flat_index(dx, dy, dz, x, y, z);
                match cells[i] {
                    Some(v) => {
                        let ghost before = cells@;
                        let b = grow_box(&cells, dx, dy, dz, v, x, y, z);
                        fill_box(&mut cells, dx, dy, dz, x, y, z, b.w, b.l, b.h, None);
                        let ghost prev = out@;
                        out.push(b);
                        assert(merge_from(before, dxi, dyi, dzi, x as int, y as int, z as int)
                            == seq![b] + merge_from(cells@, dxi, dyi, dzi, x as int, y as int, z + 1));
                        assert(out@ + merge_from(cells@, dxi, dyi, dzi, x as int, y as int, z + 1)
                            =~= prev + (seq![b] + merge_from(cells@, dxi, dyi, dzi, x as int, y as int, z + 1)));
                    },
                    None => {},
                }
                z += 1;
            }
            y += 1;
        }
        x += 1;
    }
    assert(out@ + merge_from(cells@, dxi, dyi, dzi, x as int, 0, 0) =~= out@);
    out
}

} // verus!
