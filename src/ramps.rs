use vstd::prelude::*;
use crate::convert::{box_brick, box_bricks, box_fits, fits_i32, Brick, UnitSize, RAMP_HALF_HEIGHT, RAMP_HALF_WIDTH};
use crate::grid::VoxelGrid;
use crate::laws::{lemma_merge_volume, occupied, total_volume};
use crate::merge::{merge_boxes, merge_from, MergedBox};

verus! {

/// The cell size used while ramps are generated.
pub open spec fn ramp_unit() -> UnitSize {
    UnitSize { half_width: RAMP_HALF_WIDTH, half_height: RAMP_HALF_HEIGHT }
}

/// `cells` with every cell made empty that the ramp generator left empty in
/// `after`; the generator can claim cells, never fill them.
pub open spec fn after_claims(cells: Seq<Option<u8>>, after: Seq<Option<u8>>) -> Seq<Option<u8>> {
    Seq::new(cells.len(), |i: int| if after[i] is None { None } else { cells[i] })
}

/// The number of occupied cells of `cells` that `after` leaves empty.
pub open spec fn claimed(cells: Seq<Option<u8>>, after: Seq<Option<u8>>) -> int
    decreases cells.len(),
{
    if cells.len() == 0 {
        0
    } else {
        let i = cells.len() - 1;
        claimed(cells.drop_last(), after) + if cells[i] is Some && after[i] is None {
            1int
        } else {
            0int
        }
    }
}

/// The position of a brick made in grid space, moved back to the world for
/// a grid whose first cell lies at lattice position `o`.
pub open spec fn rebased_position(b: Brick, o: (i128, i128, i128), u: UnitSize) -> (int, int, int) {
    (
        b.position.0 + o.0 * u.half_width * 2,
        b.position.1 + o.1 * u.half_width * 2,
        b.position.2 + o.2 * u.half_height * 2,
    )
}

pub open spec fn rebase_fits(b: Brick, o: (i128, i128, i128), u: UnitSize) -> bool {
    let p = rebased_position(b, o, u);
    fits_i32(p.0) && fits_i32(p.1) && fits_i32(p.2)
}

pub open spec fn rebased(b: Brick, o: (i128, i128, i128), u: UnitSize) -> Brick {
    let p = rebased_position(b, o, u);
    Brick { position: (p.0 as i32, p.1 as i32, p.2 as i32), ..b }
}

/// Clears in `g` the cells that the ramp generator claimed: those that it
/// left empty in `after`.
pub fn apply_claims(g: VoxelGrid, after: &Vec<Option<u8>>) -> (r: VoxelGrid)
    requires
        g.wf(),
        after@.len() == g.cells@.len(),
    ensures
        r.wf(),
        r.dx == g.dx && r.dy == g.dy && r.dz == g.dz,
        r.cells@ == after_claims(g.cells@, after@),
{
    let VoxelGrid { dx, dy, dz, cells } = g;
    let ghost start = cells@;
    let mut cells = cells;
    let mut i: usize = 0;
    while i < cells.len()
        invariant
            cells@.len() == start.len(),
            after@.len() == start.len(),
            i <= start.len(),
            forall|j: int| 0 <= j < i ==> cells@[j] == after_claims(start, after@)[j],
            forall|j: int| i <= j < start.len() ==> cells@[j] == start[j],
        decreases start.len() - i,
    {
        if after[i].is_none() {
            cells.set(i, None);
        }
        i += 1;
    }
    assert(cells@ =~= after_claims(start, after@));
    VoxelGrid { dx, dy, dz, cells }
}

proof fn lemma_claims_count(cells: Seq<Option<u8>>, after: Seq<Option<u8>>)
    requires
        after.len() == cells.len(),
    ensures
        occupied(after_claims(cells, after)) == occupied(cells) - claimed(cells, after),
    decreases cells.len(),
{
    if cells.len() > 0 {
        let n = cells.len() - 1;
        lemma_claims_count(cells.drop_last(), after.subrange(0, n));
        assert(after_claims(cells, after).drop_last() =~= after_claims(cells.drop_last(), after.subrange(0, n)));
        lemma_claimed_prefix(cells.drop_last(), after, after.subrange(0, n));
    }
}

proof fn lemma_claimed_prefix(cells: Seq<Option<u8>>, a1: Seq<Option<u8>>, a2: Seq<Option<u8>>)
    requires
        cells.len() <= a1.len(),
        cells.len() <= a2.len(),
        forall|i: int| 0 <= i < cells.len() ==> a1[i] == a2[i],
    ensures
        claimed(cells, a1) == claimed(cells, a2),
    decreases cells.len(),
{
    if cells.len() > 0 {
        lemma_claimed_prefix(cells.drop_last(), a1, a2);
    }
}

/// After the ramp pass, the merged boxes hold as many cells together as the
/// grid had occupied cells, less those the ramp generator claimed.
pub proof fn lemma_ramp_merge_volume(g: VoxelGrid, after: Seq<Option<u8>>)
    requires
        g.wf(),
        after.len() == g.cells@.len(),
    ensures
        total_volume(merge_from(after_claims(g.cells@, after), g.dx as int, g.dy as int, g.dz as int, 0, 0, 0))
            == occupied(g.cells@) - claimed(g.cells@, after),
{
    lemma_claims_count(g.cells@, after);
    lemma_merge_volume(after_claims(g.cells@, after), g.dx as int, g.dy as int, g.dz as int, 0, 0, 0);
}

fn shift(p: i32, o: i128, half: u32) -> (r: Option<i32>)
    requires
        -0x1_0000_0000_0000_0000 <= o <= 0x1_0000_0000_0000_0000,
    ensures
        r is Some <==> fits_i32(p + o * half * 2),
        r matches Some(v) ==> v == p + o * half * 2,
{
    assert(-0x4_0000_0000_0000_0000_0000_0000 <= o * (half as i128 * 2) <= 0x4_0000_0000_0000_0000_0000_0000) by (nonlinear_arith)
        requires -0x1_0000_0000_0000_0000 <= o <= 0x1_0000_0000_0000_0000, 0 <= half <= 0xffff_ffff;
    let v = p as i128 + o * (half as i128 * 2);
    assert(v == p + o * half * 2) by (nonlinear_arith)
        requires v == p + o * (half * 2);
    if v < i32::MIN as i128 || v > i32::MAX as i128 {
        None
    } else {
        Some(v as i32)
    }
}

/// Moves bricks made in grid space back to the world, for a grid whose first
/// cell lies at lattice position `o`; nothing where one would leave the save
/// format's coordinates.
pub fn rebase_bricks(bricks: &Vec<Brick>, o: (i128, i128, i128), u: UnitSize) -> (r: Option<Vec<Brick>>)
    requires
        -0x1_0000_0000_0000_0000 <= o.0 <= 0x1_0000_0000_0000_0000,
        -0x1_0000_0000_0000_0000 <= o.1 <= 0x1_0000_0000_0000_0000,
        -0x1_0000_0000_0000_0000 <= o.2 <= 0x1_0000_0000_0000_0000,
    ensures
        r is Some <==> forall|i: int| 0 <= i < bricks@.len() ==> rebase_fits(#[trigger] bricks@[i], o, u),
        r matches Some(v) ==> v@ == bricks@.map_values(|b: Brick| rebased(b, o, u)),
{
    let mut out: Vec<Brick> = Vec::new();
    let mut i: usize = 0;
    while i < bricks.len()
        invariant
            i <= bricks@.len(),
            -0x1_0000_0000_0000_0000 <= o.0 <= 0x1_0000_0000_0000_0000,
            -0x1_0000_0000_0000_0000 <= o.1 <= 0x1_0000_0000_0000_0000,
            -0x1_0000_0000_0000_0000 <= o.2 <= 0x1_0000_0000_0000_0000,
            forall|j: int| 0 <= j < i ==> rebase_fits(#[trigger] bricks@[j], o, u),
            out@ =~= bricks@.take(i as int).map_values(|b: Brick| rebased(b, o, u)),
        decreases bricks@.len() - i,
    {
        let b = bricks[i];
        let x = shift(b.position.0, o.0, u.half_width);
        let y = shift(b.position.1, o.1, u.half_width);
        let z = shift(b.position.2, o.2, u.half_height);
        match (x, y, z) {
            (Some(x), Some(y), Some(z)) => {
                out.push(Brick { position: (x, y, z), ..b });
            },
            _ => {
                return None;
            },
        }
        i += 1;
    }
    assert(bricks@.take(i as int) =~= bricks@);
    Some(out)
}

/// Completes a conversion with ramps. `g` is the grid built from the placed
/// cells, whose first cell lies at lattice position `o`; `ramps` are the
/// bricks that the ramp generator made from it in grid space, and `after` the
/// grid's cells as the generator left them. The ramps come first, moved back
/// to the world; then the boxes merged from the cells the generator did not
/// claim, at the ramp cell size. Nothing where a brick would leave the save
/// format's coordinates or sizes.
pub fn finish_ramps(
    ramps: &Vec<Brick>,
    g: VoxelGrid,
    after: &Vec<Option<u8>>,
    o: (i128, i128, i128),
    asset: u32,
    owner: u32,
) -> (r: Option<Vec<Brick>>)
    requires
        g.wf(),
        after@.len() == g.cells@.len(),
        -0x1_0000_0000_0000_0000 <= o.0 <= 0x1_0000_0000_0000_0000,
        -0x1_0000_0000_0000_0000 <= o.1 <= 0x1_0000_0000_0000_0000,
        -0x1_0000_0000_0000_0000 <= o.2 <= 0x1_0000_0000_0000_0000,
    ensures
        ({
            let boxes = merge_from(after_claims(g.cells@, after@), g.dx as int, g.dy as int, g.dz as int, 0, 0, 0);
            &&& r is Some <==> (forall|i: int| 0 <= i < ramps@.len() ==> rebase_fits(#[trigger] ramps@[i], o, ramp_unit()))
                && (forall|i: int| 0 <= i < boxes.len() ==> box_fits(#[trigger] boxes[i], o, ramp_unit()))
            &&& r matches Some(v) ==> v@ == ramps@.map_values(|b: Brick| rebased(b, o, ramp_unit()))
                + boxes.map_values(|b: MergedBox| box_brick(b, o, ramp_unit(), asset, owner))
        }),
{
    let u = UnitSize { half_width: RAMP_HALF_WIDTH, half_height: RAMP_HALF_HEIGHT };
    let moved = rebase_bricks(ramps, o, u);
    let rest = apply_claims(g, after);
    let boxes = merge_boxes(rest);
    let merged_bricks = box_bricks(&boxes, o, u, asset, owner);
    match (moved, merged_bricks) {
        (Some(mut a), Some(mut b)) => {
            a.append(&mut b);
            Some(a)
        },
        _ => None,
    }
}

} // verus!
