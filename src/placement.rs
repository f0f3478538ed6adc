use vstd::prelude::*;
use crate::rotation::{is_valid_rotation, rotate, rotated};

verus! {

/// How each voxel is turned into a brick.
#[derive(Clone, Copy, Debug, PartialEq, Eq, Structural)]
pub enum BrickOutputMode {
    /// Default 1x1 brick.
    Brick,
    /// Default 1x1f plate brick.
    Plate,
    /// Default 1x1x1 micro brick.
    MicroBrick,
}

/// One colored unit cube of a model; `color_index` is 1-based.
#[derive(Clone, Copy, Debug, PartialEq, Eq)]
pub struct Voxel {
    pub position: (u8, u8, u8),
    pub color_index: u8,
}

/// A model: its dimensions and its voxels.
#[derive(Debug)]
pub struct VoxelModel {
    pub size: (u16, u16, u16),
    pub voxels: Vec<Voxel>,
}

/// One placement of the model with index `model` in the world.
#[derive(Clone, Copy, Debug, PartialEq, Eq)]
pub struct ModelInstance {
    pub model: usize,
    pub position: (i32, i32, i32),
    pub rotation: Option<u8>,
}

/// A unit cell of the world lattice and its zero-based palette index.
#[derive(Clone, Copy, Debug, PartialEq, Eq, Structural)]
pub struct LatticeCell {
    pub x: i64,
    pub y: i64,
    pub z: i64,
    pub color: u8,
}

pub open spec fn models_wf(models: Seq<VoxelModel>) -> bool {
    forall|m: int, v: int|
        0 <= m < models.len() && 0 <= v < models[m].voxels@.len() ==> #[trigger] models[m].voxels@[v].color_index
            >= 1
}

pub open spec fn instances_wf(insts: Seq<ModelInstance>) -> bool {
    forall|i: int| 0 <= i < insts.len() ==> ((#[trigger] insts[i]).rotation matches Some(c) ==> is_valid_rotation(c))
}

/// The voxel's position relative to the model's center.
pub open spec fn local_offset(size: (u16, u16, u16), v: Voxel) -> (int, int, int) {
    (
        v.position.0 as int - size.0 as int / 2,
        v.position.1 as int - size.1 as int / 2,
        v.position.2 as int - size.2 as int / 2,
    )
}

pub open spec fn placed(m: VoxelModel, inst: ModelInstance, v: Voxel) -> LatticeCell {
    let off = local_offset(m.size, v);
    let r = match inst.rotation {
        Some(c) => rotated(off, c),
        None => off,
    };
    LatticeCell {
        x: (r.0 + inst.position.0) as i64,
        y: (r.1 + inst.position.1) as i64,
        z: (r.2 + inst.position.2) as i64,
        color: (v.color_index - 1) as u8,
    }
}

pub open spec fn instance_cells(models: Seq<VoxelModel>, inst: ModelInstance) -> Seq<LatticeCell> {
    if inst.model < models.len() {
        let m = models[inst.model as int];
        m.voxels@.map_values(|v: Voxel| placed(m, inst, v))
    } else {
        seq![]
    }
}

/// The cells of all instances, in instance order and then voxel order.
pub open spec fn placements(models: Seq<VoxelModel>, insts: Seq<ModelInstance>) -> Seq<LatticeCell>
    decreases insts.len(),
{
    if insts.len() == 0 {
        seq![]
    } else {
        placements(models, insts.drop_last()) + instance_cells(models, insts.last())
    }
}

/// The number of voxels over all instances whose model exists.
pub open spec fn voxel_total(models: Seq<VoxelModel>, insts: Seq<ModelInstance>) -> int
    decreases insts.len(),
{
    if insts.len() == 0 {
        0
    } else {
        let inst = insts.last();
        voxel_total(models, insts.drop_last()) + if inst.model < models.len() {
            models[inst.model as int].voxels@.len() as int
        } else {
            0
        }
    }
}

/// Placement makes one cell for each voxel of each instance.
pub proof fn lemma_placement_count(models: Seq<VoxelModel>, insts: Seq<ModelInstance>)
    ensures
        placements(models, insts).len() == voxel_total(models, insts),
    decreases insts.len(),
{
    if insts.len() > 0 {
        lemma_placement_count(models, insts.drop_last());
    }
}

fn place_voxel(m: &VoxelModel, inst: &ModelInstance, v: Voxel) -> (c: LatticeCell)
    requires
        v.color_index >= 1,
        inst.rotation matches Some(code) ==> is_valid_rotation(code),
    ensures
        c == placed(*m, *inst, v),
{
    let off: (i32, i32, i32) = (
        v.position.0 as i32 - (m.size.0 / 2) as i32,
        v.position.1 as i32 - (m.size.1 / 2) as i32,
        v.position.2 as i32 - (m.size.2 / 2) as i32,
    );
    let r = match inst.rotation {
        Some(code) => rotate(off, code),
        None => off,
    };
    LatticeCell {
        x: r.0 as i64 + inst.position.0 as i64,
        y: r.1 as i64 + inst.position.1 as i64,
        z: r.2 as i64 + inst.position.2 as i64,
        color: v.color_index - 1,
    }
}

/// Places every voxel of every instance on the world lattice.
pub fn place_voxels(models: &Vec<VoxelModel>, instances: &Vec<ModelInstance>) -> (out: Vec<LatticeCell>)
    requires
        models_wf(models@),
        instances_wf(instances@),
    ensures
        out@ == placements(models@, instances@),
        out@.len() == voxel_total(models@, instances@),
{
    let mut out: Vec<LatticeCell> = Vec::new();
    let mut i: usize = 0;
    while i < instances.len()
        invariant
            models_wf(models@),
            instances_wf(instances@),
            i <= instances@.len(),
            out@ == placements(models@, instances@.take(i as int)),
        decreases instances@.len() - i,
    {
        let inst = instances[i];
        assert(instances@.take(i as int + 1).drop_last() =~= instances@.take(i as int));
        assert(instances@.take(i as int + 1).last() == inst);
        if inst.model < models.len() {
            let m = &models[inst.model];
            let ghost start = out@;
            let ghost cells = instance_cells(models@, inst);
            let mut j: usize = 0;
            while j < m.voxels.len()
                invariant
                    models_wf(models@),
                    instances_wf(instances@),
                    i < instances@.len(),
                    inst == instances@[i as int],
                    inst.model < models@.len(),
                    *m == models@[inst.model as int],
                    cells == instance_cells(models@, inst),
                    cells.len() == m.voxels@.len(),
                    j <= m.voxels@.len(),
                    out@ == start + cells.take(j as int),
                decreases m.voxels@.len() - j,
            {
                let v = m.voxels[j];
                assert(models@[inst.model as int].voxels@[j as int].color_index >= 1);
                let c = place_voxel(m, &inst, v);
                out.push(c);
                assert(cells.take(j as int + 1) =~= cells.take(j as int).push(c));
                j += 1;
            }
            assert(cells.take(j as int) =~= cells);
        } else {
            assert(instance_cells(models@, inst) =~= seq![]);
            assert(out@ + instance_cells(models@, inst) =~= out@);
        }
        i += 1;
    }
    assert(instances@.take(i as int) =~= instances@);
    proof {
        lemma_placement_count(models@, instances@);
    }
    out
}

} // verus!
