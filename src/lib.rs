//! Conversion of voxel models into bricks: palette gamma correction, placement
//! of rotated model instances on a lattice, and greedy merging of same-colored
//! cells into boxes.

pub mod color;
pub mod convert;
pub mod grid;
pub mod laws;
pub mod merge;
pub mod paths;
pub mod placement;
pub mod ramps;
pub mod rotation;

pub use color::{correct_palette, gamma_channel, gamma_correction, PaletteColor};
pub use convert::{
    box_bricks, brick_unit, unit_bricks, vox2brs, Brick, Conversion, ConvertError, UnitSize,
    RAMP_HALF_HEIGHT, RAMP_HALF_WIDTH, UPRIGHT,
};
pub use grid::{build_grid, VoxelGrid};
pub use merge::{merge_boxes, MergedBox, MAX_EXTENT};
pub use paths::{valid_brs_path, valid_vox_path};
pub use placement::{place_voxels, BrickOutputMode, LatticeCell, ModelInstance, Voxel, VoxelModel};
pub use ramps::{apply_claims, finish_ramps, rebase_bricks};
pub use rotation::{rotate, valid_rotation};
