use vstd::prelude::*;
use crate::placement::LatticeCell;
use crate::merge::{fill_box, filled, in_extent};
use vstd::arithmetic::div_mod::{lemma_fundamental_div_mod, lemma_fundamental_div_mod_converse, lemma_mod_pos_bound, lemma_div_pos_is_pos};

verus! {

/// A dense box of unit cells, each empty or holding a palette index, stored
/// with `x` varying fastest and `z` slowest.
#[derive(Debug)]
pub struct VoxelGrid {
    pub dx: usize,
    pub dy: usize,
    pub dz: usize,
    pub cells: Vec<Option<u8>>,
}

impl VoxelGrid {
    pub open spec fn wf(&self) -> bool {
        self.cells@.len() == self.dx * self.dy * self.dz
    }
}

/// The flat position of cell `(x, y, z)` in a grid `dx` wide and `dy` long.
pub open spec fn cell_index(dx: int, dy: int, x: int, y: int, z: int) -> int {
    x + y * dx + z * (dx * dy)
}

pub open spec fn in_dims(dx: int, dy: int, dz: int, x: int, y: int, z: int) -> bool {
    0 <= x < dx && 0 <= y < dy && 0 <= z < dz
}

pub open spec fn dec_x(dx: int, dy: int, i: int) -> int {
    (i % (dx * dy)) % dx
}

pub open spec fn dec_y(dx: int, dy: int, i: int) -> int {
    (i % (dx * dy)) / dx
}

pub open spec fn dec_z(dx: int, dy: int, i: int) -> int {
    i / (dx * dy)
}

/// The cell at `(x, y, z)` of flat contents `cells`.
pub open spec fn cell_at(cells: Seq<Option<u8>>, dx: int, dy: int, x: int, y: int, z: int) -> Option<u8> {
    cells[cell_index(dx, dy, x, y, z)]
}

/// Each cell inside the grid has its own flat position, from which its
/// coordinates are read back.
pub proof fn lemma_encode(dx: int, dy: int, dz: int, x: int, y: int, z: int)
    requires
        in_dims(dx, dy, dz, x, y, z),
    ensures
        0 <= cell_index(dx, dy, x, y, z) < dx * dy * dz,
        dec_x(dx, dy, cell_index(dx, dy, x, y, z)) == x,
        dec_y(dx, dy, cell_index(dx, dy, x, y, z)) == y,
        dec_z(dx, dy, cell_index(dx, dy, x, y, z)) == z,
{
    let i = cell_index(dx, dy, x, y, z);
    let a = x + y * dx;
    let d = dx * dy;
    assert(0 <= a < d) by (nonlinear_arith)
        requires 0 <= x < dx, 0 <= y < dy, a == x + y * dx, d == dx * dy;
    assert(0 <= i < d * dz) by (nonlinear_arith)
        requires 0 <= a < d, 0 <= z < dz, i == a + z * d;
    assert(d * dz == dx * dy * dz);
    lemma_fundamental_div_mod_converse(i, d, z, a);
    lemma_fundamental_div_mod_converse(a, dx, y, x);
}

/// Each flat position inside the grid is the position of the cell read back
/// from it.
pub proof fn lemma_decode(dx: int, dy: int, dz: int, i: int)
    requires
        0 <= i < dx * dy * dz,
        dx >= 0,
        dy >= 0,
        dz >= 0,
    ensures
        in_dims(dx, dy, dz, dec_x(dx, dy, i), dec_y(dx, dy, i), dec_z(dx, dy, i)),
        cell_index(dx, dy, dec_x(dx, dy, i), dec_y(dx, dy, i), dec_z(dx, dy, i)) == i,
{
    let d = dx * dy;
    assert(dx > 0 && dy > 0 && dz > 0) by (nonlinear_arith)
        requires 0 <= i < dx * dy * dz, dx >= 0, dy >= 0, dz >= 0;
    assert(d > 0) by (nonlinear_arith)
        requires dx > 0, dy > 0, d == dx * dy;
    lemma_fundamental_div_mod(i, d);
    lemma_mod_pos_bound(i, d);
    lemma_div_pos_is_pos(i, d);
    let z = i / d;
    let a = i % d;
    lemma_fundamental_div_mod(a, dx);
    lemma_mod_pos_bound(a, dx);
    lemma_div_pos_is_pos(a, dx);
    let y = a / dx;
    let x = a % dx;
    assert(z < dz) by (nonlinear_arith)
        requires i == d * z + a, 0 <= a, i < d * dz, d > 0, z >= 0;
    assert(y < dy) by (nonlinear_arith)
        requires a == dx * y + x, 0 <= x, a < dx * dy, dx > 0, y >= 0;
    assert(cell_index(dx, dy, x, y, z) == i) by (nonlinear_arith)
        requires i == d * z + a, a == dx * y + x, d == dx * dy;
}

/// Where a lattice cell lies in grid space: the y axis is flipped.
pub open spec fn grid_pos(c: LatticeCell) -> (int, int, int) {
    (c.x as int, -(c.y as int), c.z as int)
}

/// Lattice cell `c` covers grid position `p` where each lattice cell spans
/// `kx` grid cells along x and y and `kz` along z.
pub open spec fn covers(c: LatticeCell, kx: int, kz: int, p: (int, int, int)) -> bool {
    let q = grid_pos(c);
    &&& q.0 * kx <= p.0 < q.0 * kx + kx
    &&& q.1 * kx <= p.1 < q.1 * kx + kx
    &&& q.2 * kz <= p.2 < q.2 * kz + kz
}

/// The color of the last cell of `s` that covers grid position `p`, if any.
pub open spec fn last_color_at(s: Seq<LatticeCell>, p: (int, int, int), kx: int, kz: int) -> Option<u8>
    decreases s.len(),
{
    if s.len() == 0 {
        None
    } else if covers(s.last(), kx, kz, p) {
        Some(s.last().color)
    } else {
        last_color_at(s.drop_last(), p, kx, kz)
    }
}

/// The least value of coordinate `k` over the grid positions of `s`.
pub open spec fn low(s: Seq<LatticeCell>, k: int) -> int
    decreases s.len(),
{
    if s.len() == 0 {
        0
    } else if s.len() == 1 {
        coord(grid_pos(s[0]), k)
    } else {
        let m = low(s.drop_last(), k);
        let c = coord(grid_pos(s.last()), k);
        if c < m { c } else { m }
    }
}

/// The greatest value of coordinate `k` over the grid positions of `s`.
pub open spec fn high(s: Seq<LatticeCell>, k: int) -> int
    decreases s.len(),
{
    if s.len() == 0 {
        -1
    } else if s.len() == 1 {
        coord(grid_pos(s[0]), k)
    } else {
        let m = high(s.drop_last(), k);
        let c = coord(grid_pos(s.last()), k);
        if c > m { c } else { m }
    }
}

pub open spec fn coord(p: (int, int, int), k: int) -> int {
    if k == 0 { p.0 } else if k == 1 { p.1 } else { p.2 }
}

/// The extent of the tight bounding box along axis `k`.
pub open spec fn span(s: Seq<LatticeCell>, k: int) -> int {
    high(s, k) - low(s, k) + 1
}

/// The contents of the grid built from `s` at `kx` grid cells per lattice
/// cell along x and y and `kz` along z, in flat order.
pub open spec fn grid_cells(s: Seq<LatticeCell>, kx: int, kz: int) -> Seq<Option<u8>> {
    let dx = span(s, 0) * kx;
    let dy = span(s, 1) * kx;
    Seq::new(
        (dx * dy * (span(s, 2) * kz)) as nat,
        |i: int|
            last_color_at(
                s,
                (dec_x(dx, dy, i) + low(s, 0) * kx, dec_y(dx, dy, i) + low(s, 1) * kx, dec_z(dx, dy, i) + low(s, 2) * kz),
                kx,
                kz,
            ),
    )
}

proof fn lemma_bounds_step(s: Seq<LatticeCell>, i: int, k: int)
    requires
        0 < i < s.len(),
    ensures
        low(s.take(i + 1), k) == if coord(grid_pos(s[i]), k) < low(s.take(i), k) {
            coord(grid_pos(s[i]), k)
        } else {
            low(s.take(i), k)
        },
        high(s.take(i + 1), k) == if coord(grid_pos(s[i]), k) > high(s.take(i), k) {
            coord(grid_pos(s[i]), k)
        } else {
            high(s.take(i), k)
        },
{
    assert(s.take(i + 1).drop_last() =~= s.take(i));
}

proof fn lemma_within(s: Seq<LatticeCell>, j: int, k: int)
    requires
        0 <= j < s.len(),
    ensures
        low(s, k) <= coord(grid_pos(s[j]), k) <= high(s, k),
    decreases s.len(),
{
    if j < s.len() - 1 {
        lemma_within(s.drop_last(), j, k);
    }
    if s.len() > 1 && j == s.len() - 1 {
        assert(s.drop_last().len() > 0);
        lemma_low_le_high(s.drop_last(), k);
    }
}

/// The least coordinate is that of some cell.
pub(crate) proof fn lemma_low_attained(s: Seq<LatticeCell>, k: int)
    requires
        s.len() > 0,
    ensures
        exists|j: int| 0 <= j < s.len() && coord(grid_pos(#[trigger] s[j]), k) == low(s, k),
    decreases s.len(),
{
    if s.len() == 1 {
        assert(coord(grid_pos(s[0]), k) == low(s, k));
    } else {
        lemma_low_attained(s.drop_last(), k);
        let j = choose|j: int| 0 <= j < s.drop_last().len() && coord(grid_pos(#[trigger] s.drop_last()[j]), k) == low(s.drop_last(), k);
        if coord(grid_pos(s.last()), k) < low(s.drop_last(), k) {
            assert(coord(grid_pos(s[s.len() - 1]), k) == low(s, k));
        } else {
            assert(s[j] == s.drop_last()[j]);
        }
    }
}

/// Lattice coordinates are 64-bit, so the least one is too, give or take the
/// flip of the y axis.
pub(crate) proof fn lemma_low_range(s: Seq<LatticeCell>, k: int)
    ensures
        -0x8000_0000_0000_0000 <= low(s, k) <= 0x8000_0000_0000_0000,
    decreases s.len(),
{
    if s.len() > 1 {
        lemma_low_range(s.drop_last(), k);
    }
}

proof fn lemma_low_le_high(s: Seq<LatticeCell>, k: int)
    requires
        s.len() > 0,
    ensures
        low(s, k) <= high(s, k),
    decreases s.len(),
{
    if s.len() > 1 {
        lemma_low_le_high(s.drop_last(), k);
    }
}

fn axis_of(c: &LatticeCell, k: u8) -> (r: i128)
    requires
        k < 3,
    ensures
        r as int == coord(grid_pos(*c), k as int),
{
    if k == 0 {
        c.x as i128
    } else if k == 1 {
        -(c.y as i128)
    } else {
        c.z as i128
    }
}

/// Finds the tight bounds of `s` along axis `k`: its least and greatest
/// coordinate.
fn bounds_of(s: &Vec<LatticeCell>, k: u8) -> (r: (i128, i128))
    requires
        k < 3,
    ensures
        r.0 as int == low(s@, k as int),
        r.1 as int == high(s@, k as int),
        s@.len() > 0 ==> (-0x8000_0000_0000_0000 <= r.0 && r.1 <= 0x8000_0000_0000_0000),
{
    if s.len() == 0 {
        return (0, -1);
    }
    let first = axis_of(&s[0], k);
    let mut lo = first;
    let mut hi = first;
    let mut i: usize = 1;
    assert(s@.take(1) =~= seq![s@[0]]);
    while i < s.len()
        invariant
            k < 3,
            1 <= i <= s@.len(),
            lo as int == low(s@.take(i as int), k as int),
            hi as int == high(s@.take(i as int), k as int),
            -0x8000_0000_0000_0000 <= lo <= hi <= 0x8000_0000_0000_0000,
        decreases s@.len() - i,
    {
        let c = axis_of(&s[i], k);
        proof {
            lemma_bounds_step(s@, i as int, k as int);
        }
        if c < lo {
            lo = c;
        }
        if c > hi {
            hi = c;
        }
        i += 1;
    }
    assert(s@.take(i as int) =~= s@);
    (lo, hi)
}

pub(crate) fn flat_index(dx: usize, dy: usize, dz: usize, x: usize, y: usize, z: usize) -> (i: usize)
    requires
        dx * dy * dz <= usize::MAX,
        in_dims(dx as int, dy as int, dz as int, x as int, y as int, z as int),
    ensures
        i as int == cell_index(dx as int, dy as int, x as int, y as int, z as int),
        i < dx * dy * dz,
{
    proof {
        lemma_encode(dx as int, dy as int, dz as int, x as int, y as int, z as int);
        assert(dx * dy <= dx * dy * dz) by (nonlinear_arith)
            requires dz >= 1;
        assert(y * dx <= cell_index(dx as int, dy as int, x as int, y as int, z as int)) by (nonlinear_arith)
            requires x >= 0, z >= 0, dx >= 0, dy >= 0;
        assert(z * (dx * dy) <= cell_index(dx as int, dy as int, x as int, y as int, z as int)) by (nonlinear_arith)
            requires x >= 0, y >= 0, dx >= 0, dy >= 0;
    }
    x + y * dx + z * (dx * dy)
}

/// The grid of `s` at the given scale can be addressed: each extent and the
/// number of cells fit in `usize`.
pub open spec fn grid_fits(s: Seq<LatticeCell>, kx: int, kz: int) -> bool {
    let dx = span(s, 0) * kx;
    let dy = span(s, 1) * kx;
    let dz = span(s, 2) * kz;
    dx <= usize::MAX && dy <= usize::MAX && dz <= usize::MAX && dx * dy * dz <= usize::MAX
}

/// Builds the dense grid over the tight bounding box of `s`, where each
/// lattice cell spans `kx` grid cells along x and y and `kz` along z, and
/// returns it with the grid position of its first cell. Where cells overlap,
/// the last one's color stays. Gives nothing where the box has more cells
/// than memory can be addressed by.
pub fn build_grid(s: &Vec<LatticeCell>, kx: u32, kz: u32) -> (r: Option<(VoxelGrid, (i128, i128, i128))>)
    ensures
        r is None <==> !grid_fits(s@, kx as int, kz as int),
        r matches Some((g, o)) ==> {
            &&& g.wf()
            &&& g.dx == span(s@, 0) * kx && g.dy == span(s@, 1) * kx && g.dz == span(s@, 2) * kz
            &&& o.0 == low(s@, 0) * kx && o.1 == low(s@, 1) * kx && o.2 == low(s@, 2) * kz
            &&& g.cells@ == grid_cells(s@, kx as int, kz as int)
        },
{
    let (lx, hx) = bounds_of(s, 0);
    let (ly, hy) = bounds_of(s, 1);
    let (lz, hz) = bounds_of(s, 2);
    let kxi = kx as i128;
    let kzi = kz as i128;
    if s.len() > 0 {
        proof {
            lemma_low_le_high(s@, 0);
            lemma_low_le_high(s@, 1);
            lemma_low_le_high(s@, 2);
        }
    }
    proof {
        lemma_low_range(s@, 0);
        lemma_low_range(s@, 1);
        lemma_low_range(s@, 2);
        lemma_scaled_bounds(hx - lx + 1, kxi);
        lemma_scaled_bounds(hy - ly + 1, kxi);
        lemma_scaled_bounds(hz - lz + 1, kzi);
        lemma_scaled_bounds(lx as int, kxi);
        lemma_scaled_bounds(ly as int, kxi);
        lemma_scaled_bounds(lz as int, kzi);
    }
    let sx = (hx - lx + 1) * kxi;
    let sy = (hy - ly + 1) * kxi;
    let sz = (hz - lz + 1) * kzi;
    let ox = lx * kxi;
    let oy = ly * kxi;
    let oz = lz * kzi;
    let mut n: usize = 0;
    if sx > usize::MAX as i128 || sy > usize::MAX as i128 || sz > usize::MAX as i128 {
        return None;
    }
    if sx > 0 && sy > 0 && sz > 0 {
        assert((sx as u128) * (sy as u128) <= 0xffff_ffff_ffff_ffff * 0xffff_ffff_ffff_ffff) by (nonlinear_arith)
            requires 0 <= sx <= 0xffff_ffff_ffff_ffff, 0 <= sy <= 0xffff_ffff_ffff_ffff;
        let pxy = (sx as u128) * (sy as u128);
        if pxy > usize::MAX as u128 {
            assert(sx * sy * sz > usize::MAX) by (nonlinear_arith)
                requires sz >= 1, sx * sy > usize::MAX;
            return None;
        }
        assert(pxy * (sz as u128) <= 0xffff_ffff_ffff_ffff * 0xffff_ffff_ffff_ffff) by (nonlinear_arith)
            requires 0 <= pxy <= 0xffff_ffff_ffff_ffff, 0 <= sz <= 0xffff_ffff_ffff_ffff;
        let total = pxy * (sz as u128);
        if total > usize::MAX as u128 {
            return None;
        }
        n = total as usize;
    } else {
        assert(sx * sy * sz == 0) by (nonlinear_arith)
            requires sx >= 0, sy >= 0, sz >= 0, !(sx > 0 && sy > 0 && sz > 0);
    }
    let dx: usize = sx as usize;
    let dy: usize = sy as usize;
    let dz: usize = sz as usize;
    assert(n == dx * dy * dz);
    let mut cells: Vec<Option<u8>> = Vec::new();
    let mut i: usize = 0;
    while i < n
        invariant
            i <= n,
            cells@.len() == i,
            forall|j: int| 0 <= j < i ==> cells@[j] == None::<u8>,
        decreases n - i,
    {
        cells.push(None);
        i += 1;
    }
    proof {
        assert forall|a: int, b: int, c: int|
            in_dims(dx as int, dy as int, dz as int, a, b, c) implies #[trigger] cell_at(cells@, dx as int, dy as int, a, b, c)
                == last_color_at(s@.take(0), (a + ox, b + oy, c + oz), kx as int, kz as int) by {
            lemma_encode(dx as int, dy as int, dz as int, a, b, c);
        }
    }
    let mut i: usize = 0;
    while i < s.len()
        invariant
            i <= s@.len(),
            cells@.len() == n,
            n == dx * dy * dz,
            n <= usize::MAX,
            dx == span(s@, 0) * kx, dy == span(s@, 1) * kx, dz == span(s@, 2) * kz,
            lx == low(s@, 0), ly == low(s@, 1), lz == low(s@, 2),
            -0x8000_0000_0000_0000 <= lx <= 0x8000_0000_0000_0000,
            -0x8000_0000_0000_0000 <= ly <= 0x8000_0000_0000_0000,
            -0x8000_0000_0000_0000 <= lz <= 0x8000_0000_0000_0000,
            hx == high(s@, 0), hy == high(s@, 1), hz == high(s@, 2),
            ox == lx * kx, oy == ly * kx, oz == lz * kz,
            kxi == kx, kzi == kz,
            forall|a: int, b: int, c: int|
                in_dims(dx as int, dy as int, dz as int, a, b, c) ==> #[trigger] cell_at(cells@, dx as int, dy as int, a, b, c)
                    == last_color_at(s@.take(i as int), (a + ox, b + oy, c + oz), kx as int, kz as int),
        decreases s@.len() - i,
    {
        let cell = s[i];
        proof {
            lemma_within(s@, i as int, 0);
            lemma_within(s@, i as int, 1);
            lemma_within(s@, i as int, 2);
        }
        let qx = axis_of(&cell, 0);
        let qy = axis_of(&cell, 1);
        let qz = axis_of(&cell, 2);
        proof {
            lemma_block_inside(qx - lx, hx - lx + 1, kxi);
            lemma_block_inside(qy - ly, hy - ly + 1, kxi);
            lemma_block_inside(qz - lz, hz - lz + 1, kzi);
        }
        let bx = ((qx - lx) * kxi) as usize;
        let by = ((qy - ly) * kxi) as usize;
        let bz = ((qz - lz) * kzi) as usize;
        let ghost before = cells@;
        fill_box(&mut cells, dx, dy, dz, bx, by, bz, kx as usize, kx as usize, kz as usize, Some(cell.color));
        proof {
            let t = s@.take(i as int + 1);
            assert(t.drop_last() =~= s@.take(i as int));
            assert(t.last() == cell);
            assert(bx == qx * kx - ox && by == qy * kx - oy && bz == qz * kz - oz) by (nonlinear_arith)
                requires bx == (qx - lx) * kxi, by == (qy - ly) * kxi, bz == (qz - lz) * kzi,
                    ox == lx * kx, oy == ly * kx, oz == lz * kz, kxi == kx, kzi == kz;
            assert forall|a: int, b: int, c: int|
                in_dims(dx as int, dy as int, dz as int, a, b, c) implies #[trigger] cell_at(cells@, dx as int, dy as int, a, b, c)
                    == last_color_at(t, (a + ox, b + oy, c + oz), kx as int, kz as int) by {
                lemma_encode(dx as int, dy as int, dz as int, a, b, c);
                assert(cell_at(before, dx as int, dy as int, a, b, c) == last_color_at(s@.take(i as int), (a + ox, b + oy, c + oz), kx as int, kz as int));
                assert(in_extent(bx as int, by as int, bz as int, kx as int, kx as int, kz as int, a, b, c)
                    == covers(cell, kx as int, kz as int, (a + ox, b + oy, c + oz)));
            }
        }
        i += 1;
    }
    assert(s@.take(i as int) =~= s@);
    proof {
        assert forall|m: int| 0 <= m < n implies cells@[m] == grid_cells(s@, kx as int, kz as int)[m] by {
            lemma_decode(dx as int, dy as int, dz as int, m);
            let a = dec_x(dx as int, dy as int, m);
            let b = dec_y(dx as int, dy as int, m);
            let c = dec_z(dx as int, dy as int, m);
            assert(cell_at(cells@, dx as int, dy as int, a, b, c) == last_color_at(s@, (a + ox, b + oy, c + oz), kx as int, kz as int));
        }
        assert(cells@ =~= grid_cells(s@, kx as int, kz as int));
    }
    Some((VoxelGrid { dx, dy, dz, cells }, (ox, oy, oz)))
}

proof fn lemma_scaled_bounds(v: int, k: i128)
    requires
        -0x2_0000_0000_0000_0000 <= v <= 0x2_0000_0000_0000_0000,
        0 <= k <= 0xffff_ffff,
    ensures
        -0x2_0000_0000_0000_0000_0000_0000 <= v * k <= 0x2_0000_0000_0000_0000_0000_0000,
{
    assert(-0x2_0000_0000_0000_0000_0000_0000 <= v * k <= 0x2_0000_0000_0000_0000_0000_0000) by (nonlinear_arith)
        requires -0x2_0000_0000_0000_0000 <= v <= 0x2_0000_0000_0000_0000, 0 <= k <= 0xffff_ffff;
}

/// A lattice cell at offset `q` of a box `span` cells long starts a block of
/// `k` grid cells that ends inside the scaled box.
proof fn lemma_block_inside(q: int, span: int, k: i128)
    requires
        0 <= q < span,
        0 <= k,
    ensures
        0 <= q * k,
        q * k + k <= span * k,
{
    assert(0 <= q * k && q * k + k <= span * k) by (nonlinear_arith)
        requires 0 <= q < span, 0 <= k;
}

} // verus!
