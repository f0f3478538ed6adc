use vstd::prelude::*;
use crate::color::{corrected, correct_palette, PaletteColor};
use crate::grid::{build_grid, coord, grid_cells, grid_fits, grid_pos, lemma_low_attained, lemma_low_range, low, span};
use crate::merge::{merge_boxes, merge_from, MergedBox};
use crate::placement::{
    instances_wf, models_wf, place_voxels, placements, BrickOutputMode, LatticeCell, ModelInstance,
    VoxelModel,
};

verus! {

/// An output brick: center position, half-extents, palette index, asset
/// index, owner index, and orientation: `direction` numbers the six axis
/// directions (+x, -x, +y, -y, +z, -z) and `rotation` counts quarter turns.
#[derive(Clone, Copy, Debug, PartialEq, Eq)]
pub struct Brick {
    pub position: (i32, i32, i32),
    pub size: (u32, u32, u32),
    pub color: u32,
    pub asset: u32,
    pub owner: u32,
    pub direction: u8,
    pub rotation: u8,
}

/// The direction of a brick that stands upright: +z.
pub const UPRIGHT: u8 = 4;

/// The half-extents of one lattice cell: across (x and y) and up (z).
#[derive(Clone, Copy, Debug, PartialEq, Eq, Structural)]
pub struct UnitSize {
    pub half_width: u32,
    pub half_height: u32,
}

/// Why a conversion gives no save.
#[derive(Clone, Copy, Debug, PartialEq, Eq, Structural)]
pub enum ConvertError {
    /// The brick size asked for does not fit the save format.
    BrickSizeTooLarge,
    /// A brick would lie beyond the coordinates the save format holds.
    PositionOutOfRange,
    /// The bounding box of the voxels has more cells than can be addressed.
    GridTooLarge,
}

/// The converted palette and bricks.
#[derive(Debug)]
pub struct Conversion {
    pub colors: Vec<PaletteColor>,
    pub bricks: Vec<Brick>,
}

/// Half-width of a cell while ramps are generated.
pub const RAMP_HALF_WIDTH: u32 = 5;

/// Half-height of a cell while ramps are generated.
pub const RAMP_HALF_HEIGHT: u32 = 2;

pub open spec fn or_default(o: Option<u32>, d: int) -> int {
    match o {
        Some(v) => v as int,
        None => d,
    }
}

/// The half-extents of a unit cell for each mode.
pub open spec fn unit_of(mode: BrickOutputMode, width: Option<u32>, height: Option<u32>) -> (int, int) {
    match mode {
        BrickOutputMode::Brick => (or_default(width, 1) * 5, or_default(height, 3) * 6),
        BrickOutputMode::Plate => (or_default(width, 1) * 5, or_default(height, 1) * 2),
        BrickOutputMode::MicroBrick => (or_default(width, 1), or_default(height, 1)),
    }
}

pub open spec fn fits_u32(v: int) -> bool {
    0 <= v <= u32::MAX
}

pub open spec fn fits_i32(v: int) -> bool {
    i32::MIN <= v <= i32::MAX
}

fn or_value(o: Option<u32>, d: u32) -> (r: u64)
    ensures
        r == or_default(o, d as int),
        r <= u32::MAX,
{
    match o {
        Some(v) => v as u64,
        None => d as u64,
    }
}

/// The half-extents of a unit cell in `mode`, where they fit the save format.
pub fn brick_unit(mode: BrickOutputMode, width: Option<u32>, height: Option<u32>) -> (r: Option<UnitSize>)
    ensures
        r is Some <==> fits_u32(unit_of(mode, width, height).0) && fits_u32(unit_of(mode, width, height).1),
        r matches Some(u) ==> u.half_width == unit_of(mode, width, height).0 && u.half_height == unit_of(
            mode,
            width,
            height,
        ).1,
{
    let (hw, hh): (u64, u64) = match mode {
        BrickOutputMode::Brick => (or_value(width, 1) * 5, or_value(height, 3) * 6),
        BrickOutputMode::Plate => (or_value(width, 1) * 5, or_value(height, 1) * 2),
        BrickOutputMode::MicroBrick => (or_value(width, 1), or_value(height, 1)),
    };
    if hw > u32::MAX as u64 || hh > u32::MAX as u64 {
        return None;
    }
    Some(UnitSize { half_width: hw as u32, half_height: hh as u32 })
}

/// The center of the brick of one lattice cell; the y axis is flipped.
pub open spec fn unit_position(c: LatticeCell, u: UnitSize) -> (int, int, int) {
    (
        c.x * u.half_width * 2 + u.half_width,
        -c.y * u.half_width * 2 + u.half_width,
        c.z * u.half_height * 2 + u.half_height,
    )
}

pub open spec fn unit_fits(c: LatticeCell, u: UnitSize) -> bool {
    let p = unit_position(c, u);
    fits_i32(p.0) && fits_i32(p.1) && fits_i32(p.2)
}

pub open spec fn unit_brick(c: LatticeCell, u: UnitSize, asset: u32, owner: u32) -> Brick {
    let p = unit_position(c, u);
    Brick {
        position: (p.0 as i32, p.1 as i32, p.2 as i32),
        size: (u.half_width, u.half_width, u.half_height),
        color: c.color as u32,
        asset,
        owner,
        direction: UPRIGHT,
        rotation: 0,
    }
}

/// The center of the brick of a merged box of the grid whose first cell lies
/// at lattice position `o`.
pub open spec fn box_position(b: MergedBox, o: (i128, i128, i128), u: UnitSize) -> (int, int, int) {
    (
        (b.x + o.0) * u.half_width * 2 + b.w * u.half_width,
        (b.y + o.1) * u.half_width * 2 + b.l * u.half_width,
        (b.z + o.2) * u.half_height * 2 + b.h * u.half_height,
    )
}

pub open spec fn box_fits(b: MergedBox, o: (i128, i128, i128), u: UnitSize) -> bool {
    let p = box_position(b, o, u);
    &&& fits_i32(p.0) && fits_i32(p.1) && fits_i32(p.2)
    &&& fits_u32(b.w * u.half_width) && fits_u32(b.l * u.half_width) && fits_u32(b.h * u.half_height)
}

pub open spec fn box_brick(b: MergedBox, o: (i128, i128, i128), u: UnitSize, asset: u32, owner: u32) -> Brick {
    let p = box_position(b, o, u);
    Brick {
        position: (p.0 as i32, p.1 as i32, p.2 as i32),
        size: ((b.w * u.half_width) as u32, (b.l * u.half_width) as u32, (b.h * u.half_height) as u32),
        color: b.color as u32,
        asset,
        owner,
        direction: UPRIGHT,
        rotation: 0,
    }
}

fn fit_i32(v: i128) -> (r: Option<i32>)
    ensures
        r is Some <==> fits_i32(v as int),
        r matches Some(x) ==> x as int == v as int,
{
    if v < i32::MIN as i128 || v > i32::MAX as i128 {
        None
    } else {
        Some(v as i32)
    }
}

proof fn lemma_product_bound(a: int, b: int, ab: int, bb: int)
    requires
        -ab <= a <= ab,
        0 <= b <= bb,
    ensures
        -(ab * bb) <= a * b <= ab * bb,
{
    assert(-(ab * bb) <= a * b <= ab * bb) by (nonlinear_arith)
        requires -ab <= a <= ab, 0 <= b <= bb;
}

/// One brick for each lattice cell, in order; nothing where a brick would lie
/// beyond the save format's coordinates.
pub fn unit_bricks(cells: &Vec<LatticeCell>, u: UnitSize, asset: u32, owner: u32) -> (r: Option<Vec<Brick>>)
    ensures
        r is Some <==> forall|i: int| 0 <= i < cells@.len() ==> unit_fits(#[trigger] cells@[i], u),
        r matches Some(v) ==> v@ == cells@.map_values(|c: LatticeCell| unit_brick(c, u, asset, owner)),
{
    let mut out: Vec<Brick> = Vec::new();
    let mut i: usize = 0;
    let hw = u.half_width as i128;
    let hh = u.half_height as i128;
    while i < cells.len()
        invariant
            i <= cells@.len(),
            hw == u.half_width,
            hh == u.half_height,
            forall|j: int| 0 <= j < i ==> unit_fits(#[trigger] cells@[j], u),
            out@ =~= cells@.take(i as int).map_values(|c: LatticeCell| unit_brick(c, u, asset, owner)),
        decreases cells@.len() - i,
    {
        let c = cells[i];
        proof {
            lemma_product_bound(c.x as int, hw * 2, 0x8000_0000_0000_0000, 0x2_0000_0000);
            lemma_product_bound(-(c.y as int), hw * 2, 0x8000_0000_0000_0000, 0x2_0000_0000);
            lemma_product_bound(c.z as int, hh * 2, 0x8000_0000_0000_0000, 0x2_0000_0000);
        }
        let px = fit_i32(c.x as i128 * (hw * 2) + hw);
        let ny = -(c.y as i128);
        let py = fit_i32(ny * (hw * 2) + hw);
        let pz = fit_i32(c.z as i128 * (hh * 2) + hh);
        assert(unit_position(c, u) == (c.x as i128 * (hw * 2) + hw, ny * (hw * 2) + hw, c.z as i128 * (hh * 2) + hh)) by (nonlinear_arith)
            requires hw == u.half_width, hh == u.half_height, ny == -c.y;
        match (px, py, pz) {
            (Some(x), Some(y), Some(z)) => {
                out.push(Brick { position: (x, y, z), size: (u.half_width, u.half_width, u.half_height), color: c.color as u32, asset, owner, direction: UPRIGHT, rotation: 0 });
            },
            _ => {
                return None;
            },
        }
        i += 1;
    }
    assert(cells@.take(i as int) =~= cells@);
    Some(out)
}

/// One brick for each merged box, in order, for a grid whose first cell lies
/// at lattice position `o`; nothing where a brick would lie beyond the save
/// format's coordinates or sizes.
pub fn box_bricks(boxes: &Vec<MergedBox>, o: (i128, i128, i128), u: UnitSize, asset: u32, owner: u32) -> (r: Option<Vec<Brick>>)
    requires
        -0x1_0000_0000_0000_0000 <= o.0 <= 0x1_0000_0000_0000_0000,
        -0x1_0000_0000_0000_0000 <= o.1 <= 0x1_0000_0000_0000_0000,
        -0x1_0000_0000_0000_0000 <= o.2 <= 0x1_0000_0000_0000_0000,
    ensures
        r is Some <==> forall|i: int| 0 <= i < boxes@.len() ==> box_fits(#[trigger] boxes@[i], o, u),
        r matches Some(v) ==> v@ == boxes@.map_values(|b: MergedBox| box_brick(b, o, u, asset, owner)),
{
    let mut out: Vec<Brick> = Vec::new();
    let mut i: usize = 0;
    let hw = u.half_width as i128;
    let hh = u.half_height as i128;
    while i < boxes.len()
        invariant
            i <= boxes@.len(),
            hw == u.half_width,
            hh == u.half_height,
            -0x1_0000_0000_0000_0000 <= o.0 <= 0x1_0000_0000_0000_0000,
            -0x1_0000_0000_0000_0000 <= o.1 <= 0x1_0000_0000_0000_0000,
            -0x1_0000_0000_0000_0000 <= o.2 <= 0x1_0000_0000_0000_0000,
            forall|j: int| 0 <= j < i ==> box_fits(#[trigger] boxes@[j], o, u),
            out@ =~= boxes@.take(i as int).map_values(|b: MergedBox| box_brick(b, o, u, asset, owner)),
        decreases boxes@.len() - i,
    {
        let b = boxes[i];
        let bx = b.x as i128 + o.0;
        let by = b.y as i128 + o.1;
        let bz = b.z as i128 + o.2;
        proof {
            lemma_product_bound(bx as int, hw * 2, 0x2_0000_0000_0000_0000, 0x2_0000_0000);
            lemma_product_bound(by as int, hw * 2, 0x2_0000_0000_0000_0000, 0x2_0000_0000);
            lemma_product_bound(bz as int, hh * 2, 0x2_0000_0000_0000_0000, 0x2_0000_0000);
            lemma_product_bound(b.w as int, hw as int, 0x1_0000_0000_0000_0000, 0x1_0000_0000);
            lemma_product_bound(b.l as int, hw as int, 0x1_0000_0000_0000_0000, 0x1_0000_0000);
            lemma_product_bound(b.h as int, hh as int, 0x1_0000_0000_0000_0000, 0x1_0000_0000);
        }
        let sw = b.w as i128 * hw;
        let sl = b.l as i128 * hw;
        let sh = b.h as i128 * hh;
        let px = fit_i32(bx * (hw * 2) + sw);
        let py = fit_i32(by * (hw * 2) + sl);
        let pz = fit_i32(bz * (hh * 2) + sh);
        assert(box_position(b, o, u) == (bx * (hw * 2) + sw, by * (hw * 2) + sl, bz * (hh * 2) + sh)) by (nonlinear_arith)
            requires hw == u.half_width, hh == u.half_height, bx == b.x + o.0, by == b.y + o.1, bz == b.z + o.2,
                sw == b.w * hw, sl == b.l * hw, sh == b.h * hh;
        if sw > u32::MAX as i128 || sl > u32::MAX as i128 || sh > u32::MAX as i128 {
            return None;
        }
        match (px, py, pz) {
            (Some(x), Some(y), Some(z)) => {
                out.push(Brick { position: (x, y, z), size: (sw as u32, sl as u32, sh as u32), color: b.color as u32, asset, owner, direction: UPRIGHT, rotation: 0 });
            },
            _ => {
                return None;
            },
        }
        i += 1;
    }
    assert(boxes@.take(i as int) =~= boxes@);
    Some(out)
}

/// The asset that unit and merged bricks use in `mode`.
pub open spec fn asset_for(mode: BrickOutputMode, brick_asset: u32, microbrick_asset: u32) -> u32 {
    match mode {
        BrickOutputMode::MicroBrick => microbrick_asset,
        _ => brick_asset,
    }
}

/// The cell size that merged bricks use.
pub open spec fn merge_unit(u: UnitSize, rampify: bool) -> UnitSize {
    if rampify {
        UnitSize { half_width: RAMP_HALF_WIDTH, half_height: RAMP_HALF_HEIGHT }
    } else {
        u
    }
}

/// Grid cells per lattice cell, across and up: with `rampify` each unit
/// brick covers as many cells of the ramp cell size as its half-extents
/// hold; otherwise one.
pub open spec fn grid_scale(u: UnitSize, rampify: bool) -> (int, int) {
    if rampify {
        (u.half_width as int / RAMP_HALF_WIDTH as int, u.half_height as int / RAMP_HALF_HEIGHT as int)
    } else {
        (1, 1)
    }
}

/// A coordinate `v` whose brick center `v * 2h + h` fits the save format
/// stays small once scaled by at most `h`.
proof fn lemma_scaled_small(v: int, h: int, k: int)
    requires
        fits_i32(v * h * 2 + h),
        0 <= k <= h,
        h <= 0xffff_ffff,
    ensures
        -0x1_0000_0000_0000_0000 <= v * k <= 0x1_0000_0000_0000_0000,
{
    assert(-0x1_0000_0000_0000_0000 <= v * k <= 0x1_0000_0000_0000_0000) by (nonlinear_arith)
        requires -0x8000_0000 <= v * h * 2 + h <= 0x7fff_ffff, 0 <= k <= h, h <= 0xffff_ffff;
}

/// The first grid cell lies where box bricks can be placed from.
proof fn lemma_origin_bound(cells: Seq<LatticeCell>, u: UnitSize, rampify: bool, a: int)
    requires
        0 <= a < 3,
        forall|i: int| 0 <= i < cells.len() ==> unit_fits(#[trigger] cells[i], u),
    ensures
        ({
            let k = if a == 2 { grid_scale(u, rampify).1 } else { grid_scale(u, rampify).0 };
            -0x1_0000_0000_0000_0000 <= low(cells, a) * k <= 0x1_0000_0000_0000_0000
        }),
{
    lemma_low_range(cells, a);
    let k = if a == 2 { grid_scale(u, rampify).1 } else { grid_scale(u, rampify).0 };
    if !rampify {
        assert(k == 1);
        assert(low(cells, a) * k == low(cells, a));
    } else if cells.len() == 0 {
        assert(low(cells, a) == 0);
        assert(low(cells, a) * k == 0);
    } else {
        lemma_low_attained(cells, a);
        let j = choose|j: int| 0 <= j < cells.len() && coord(grid_pos(#[trigger] cells[j]), a) == low(cells, a);
        let c = cells[j];
        assert(unit_fits(c, u));
        assert(RAMP_HALF_WIDTH == 5 && RAMP_HALF_HEIGHT == 2);
        if a == 0 {
            assert(k == u.half_width as int / 5);
            lemma_scaled_small(c.x as int, u.half_width as int, k);
        } else if a == 1 {
            assert(k == u.half_width as int / 5);
            assert(-c.y * u.half_width * 2 == (-c.y) * u.half_width * 2) by (nonlinear_arith);
            lemma_scaled_small(-c.y, u.half_width as int, k);
        } else {
            assert(k == u.half_height as int / 2);
            lemma_scaled_small(c.z as int, u.half_height as int, k);
        }
    }
}

/// The bricks of a conversion, or the error it ends in.
pub open spec fn expected_bricks(
    models: Seq<VoxelModel>,
    insts: Seq<ModelInstance>,
    mode: BrickOutputMode,
    width: Option<u32>,
    height: Option<u32>,
    simplify: bool,
    rampify: bool,
    brick_asset: u32,
    microbrick_asset: u32,
    owner: u32,
) -> Result<Seq<Brick>, ConvertError> {
    let un = unit_of(mode, width, height);
    if !(fits_u32(un.0) && fits_u32(un.1)) {
        Err(ConvertError::BrickSizeTooLarge)
    } else {
        let u = UnitSize { half_width: un.0 as u32, half_height: un.1 as u32 };
        let asset = asset_for(mode, brick_asset, microbrick_asset);
        let cells = placements(models, insts);
        if !(forall|i: int| 0 <= i < cells.len() ==> unit_fits(#[trigger] cells[i], u)) {
            Err(ConvertError::PositionOutOfRange)
        } else if !(simplify || rampify) {
            Ok(cells.map_values(|c: LatticeCell| unit_brick(c, u, asset, owner)))
        } else if !grid_fits(cells, grid_scale(u, rampify).0, grid_scale(u, rampify).1) {
            Err(ConvertError::GridTooLarge)
        } else {
            let mu = merge_unit(u, rampify);
            let (kx, kz) = grid_scale(u, rampify);
            let boxes = merge_from(grid_cells(cells, kx, kz), span(cells, 0) * kx, span(cells, 1) * kx, span(cells, 2) * kz, 0, 0, 0);
            let o = ((low(cells, 0) * kx) as i128, (low(cells, 1) * kx) as i128, (low(cells, 2) * kz) as i128);
            if !(forall|i: int| 0 <= i < boxes.len() ==> box_fits(#[trigger] boxes[i], o, mu)) {
                Err(ConvertError::PositionOutOfRange)
            } else {
                Ok(boxes.map_values(|b: MergedBox| box_brick(b, o, mu, asset, owner)))
            }
        }
    }
}

/// Converts a voxel model set into bricks. Every palette entry is gamma
/// corrected; every voxel of every instance becomes a unit brick; with
/// `simplify` (or `rampify`, which implies it) the unit bricks are instead
/// gathered in a grid and merged into boxes of one color each.
///
/// With `rampify` the grid has the cell size of ramp generation, and each
/// unit brick fills as many of its cells as its half-extents cover. No ramps
/// are generated here: the result is the one a ramp generator that claims no
/// cell would give. `finish_ramps` completes a conversion from what the
/// generator made of the grid that `build_grid` gives at that scale.
pub fn vox2brs(
    palette: &Vec<PaletteColor>,
    models: &Vec<VoxelModel>,
    instances: &Vec<ModelInstance>,
    mode: BrickOutputMode,
    width: Option<u32>,
    height: Option<u32>,
    simplify: bool,
    rampify: bool,
    brick_asset_index: u32,
    microbrick_asset_index: u32,
    owner: u32,
) -> (r: Result<Conversion, ConvertError>)
    requires
        models_wf(models@),
        instances_wf(instances@),
        !(rampify && mode == BrickOutputMode::MicroBrick),
    ensures
        ({
            let e = expected_bricks(models@, instances@, mode, width, height, simplify, rampify,
                brick_asset_index, microbrick_asset_index, owner);
            &&& r matches Ok(c) ==> e == Ok::<Seq<Brick>, ConvertError>(c.bricks@)
            &&& r matches Err(x) ==> e == Err::<Seq<Brick>, ConvertError>(x)
        }),
        r matches Ok(c) ==> c.colors@.len() == palette@.len() && forall|i: int|
            0 <= i < palette@.len() ==> corrected(#[trigger] palette@[i], c.colors@[i]),
        r matches Ok(c) ==> !(simplify || rampify) ==> c.bricks@.len() == crate::placement::voxel_total(models@, instances@),
{
    let u = match brick_unit(mode, width, height) {
        Some(u) => u,
        None => return Err(ConvertError::BrickSizeTooLarge),
    };
    let asset = match mode {
        BrickOutputMode::MicroBrick => microbrick_asset_index,
        _ => brick_asset_index,
    };
    let colors = correct_palette(palette);
    let cells = place_voxels(models, instances);
    let units = match unit_bricks(&cells, u, asset, owner) {
        Some(b) => b,
        None => return Err(ConvertError::PositionOutOfRange),
    };
    if !(simplify || rampify) {
        return Ok(Conversion { colors, bricks: units });
    }
    let mu = if rampify {
        UnitSize { half_width: RAMP_HALF_WIDTH, half_height: RAMP_HALF_HEIGHT }
    } else {
        u
    };
    let (kx, kz): (u32, u32) = if rampify {
        (u.half_width / RAMP_HALF_WIDTH, u.half_height / RAMP_HALF_HEIGHT)
    } else {
        (1, 1)
    };
    let (g, o) = match build_grid(&cells, kx, kz) {
        Some(x) => x,
        None => return Err(ConvertError::GridTooLarge),
    };
    proof {
        lemma_origin_bound(cells@, u, rampify, 0);
        lemma_origin_bound(cells@, u, rampify, 1);
        lemma_origin_bound(cells@, u, rampify, 2);
    }
    let boxes = merge_boxes(g);
    match box_bricks(&boxes, o, mu, asset, owner) {
        Some(b) => Ok(Conversion { colors, bricks: b }),
        None => Err(ConvertError::PositionOutOfRange),
    }
}

} // verus!
