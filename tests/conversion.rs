use vox2brs::{
    apply_claims, finish_ramps, rebase_bricks, brick_unit, build_grid, correct_palette, gamma_correction, merge_boxes, place_voxels, rotate,
    valid_brs_path, valid_rotation, valid_vox_path, vox2brs, Brick, BrickOutputMode, ConvertError,
    LatticeCell, MergedBox, ModelInstance, PaletteColor, UnitSize, Voxel, VoxelGrid, VoxelModel,
};

fn voxel(x: u8, y: u8, z: u8, c: u8) -> Voxel {
    Voxel { position: (x, y, z), color_index: c }
}

fn instance(model: usize, x: i32, y: i32, z: i32) -> ModelInstance {
    ModelInstance { model, position: (x, y, z), rotation: None }
}

fn run(
    models: &Vec<VoxelModel>,
    instances: &Vec<ModelInstance>,
    mode: BrickOutputMode,
    width: Option<u32>,
    height: Option<u32>,
    simplify: bool,
) -> Result<Vec<Brick>, ConvertError> {
    vox2brs(&vec![], models, instances, mode, width, height, simplify, false, 0, 1, 1)
        .map(|c| c.bricks)
}

fn occupied(g: &VoxelGrid) -> usize {
    g.cells.iter().filter(|c| c.is_some()).count()
}

#[test]
fn it_works() {
    let result = 2 + 2;
    assert_eq!(result, 4);
}

#[test]
fn gamma_of_mid_gray() {
    let (r, g, b) = gamma_correction(128, 128, 128);
    assert_eq!((r, g, b), (55, 55, 55));
    assert!((r as i32 - 56).abs() <= 1);
}

#[test]
fn gamma_endpoints_and_values() {
    assert_eq!(gamma_correction(0, 255, 64), (0, 255, 12));
    assert_eq!(gamma_correction(200, 1, 254), (149, 0, 252));
}

#[test]
fn palette_keeps_order_and_sets_alpha() {
    let p = vec![
        PaletteColor { r: 128, g: 0, b: 255, a: 7 },
        PaletteColor { r: 255, g: 128, b: 0, a: 0 },
    ];
    let out = correct_palette(&p);
    assert_eq!(out, vec![
        PaletteColor { r: 55, g: 0, b: 255, a: 255 },
        PaletteColor { r: 255, g: 55, b: 0, a: 255 },
    ]);
}

#[test]
fn rotation_zero_is_identity() {
    for p in [(0, 0, 0), (1, -2, 3), (-7, 100, -1000), (i32::MAX, -i32::MAX, 5)] {
        assert_eq!(rotate(p, 0), p);
    }
}

#[test]
fn rotation_permutes_and_flips() {
    // first axis from y, second from x, third from z
    assert_eq!(rotate((1, 2, 3), 1), (2, 1, 3));
    // identity permutation with the first axis flipped
    assert_eq!(rotate((1, 2, 3), 4 | 16), (-1, 2, 3));
    // x from z, y from x, z from y, third flipped
    assert_eq!(rotate((1, 2, 3), 2 | 64), (3, 1, -2));
}

#[test]
fn rotation_codes_checked() {
    assert!(valid_rotation(0));
    assert!(valid_rotation(4));
    assert!(!valid_rotation(3));
    assert!(!valid_rotation(5));
    assert!(!valid_rotation(12));
}

#[test]
fn paths_checked() {
    assert_eq!(valid_brs_path("out.brs"), Ok("out.brs".to_string()));
    assert_eq!(valid_brs_path("out.txt"), Err("Invalid path to brs."));
    assert_eq!(valid_brs_path("brs"), Err("Invalid path to brs."));
    assert_eq!(valid_vox_path("in.vox", true), Ok("in.vox".to_string()));
    assert_eq!(valid_vox_path("in.vox", false), Err("Input file doesn't exist."));
    assert_eq!(valid_vox_path("in.obj", true), Err("Invalid path to vox."));
}

#[test]
fn unit_sizes_per_mode() {
    assert_eq!(brick_unit(BrickOutputMode::Brick, None, None), Some(UnitSize { half_width: 5, half_height: 18 }));
    assert_eq!(brick_unit(BrickOutputMode::Plate, None, None), Some(UnitSize { half_width: 5, half_height: 2 }));
    assert_eq!(brick_unit(BrickOutputMode::MicroBrick, Some(3), None), Some(UnitSize { half_width: 3, half_height: 1 }));
    assert_eq!(brick_unit(BrickOutputMode::Brick, Some(u32::MAX), None), None);
}

#[test]
fn single_voxel_brick() {
    let models = vec![VoxelModel { size: (1, 1, 1), voxels: vec![voxel(0, 0, 0, 1)] }];
    let instances = vec![instance(0, 0, 0, 0)];
    let bricks = run(&models, &instances, BrickOutputMode::Brick, Some(1), Some(1), false).unwrap();
    assert_eq!(bricks, vec![Brick { position: (5, 5, 6), size: (5, 5, 6), color: 0, asset: 0, owner: 1, direction: 4, rotation: 0 }]);
}

#[test]
fn two_adjacent_voxels_merge() {
    let models = vec![VoxelModel { size: (1, 1, 2), voxels: vec![voxel(0, 0, 0, 3), voxel(0, 0, 1, 3)] }];
    let instances = vec![instance(0, 0, 0, 0)];
    let bricks = run(&models, &instances, BrickOutputMode::Brick, Some(1), Some(1), true).unwrap();
    assert_eq!(bricks, vec![Brick { position: (5, 5, 0), size: (5, 5, 12), color: 2, asset: 0, owner: 1, direction: 4, rotation: 0 }]);

    let models = vec![VoxelModel { size: (2, 1, 1), voxels: vec![voxel(0, 0, 0, 3), voxel(1, 0, 0, 3)] }];
    let bricks = run(&models, &instances, BrickOutputMode::Brick, Some(1), Some(1), true).unwrap();
    assert_eq!(bricks, vec![Brick { position: (0, 5, 6), size: (10, 5, 6), color: 2, asset: 0, owner: 1, direction: 4, rotation: 0 }]);
}

#[test]
fn unit_bricks_count_every_instance() {
    let models = vec![VoxelModel { size: (4, 4, 4), voxels: vec![voxel(0, 0, 0, 1), voxel(3, 2, 1, 2)] }];
    let instances = vec![instance(0, 0, 0, 0), instance(5, 1, 1, 1), instance(0, 10, 0, 0)];
    let bricks = run(&models, &instances, BrickOutputMode::Plate, None, None, false).unwrap();
    assert_eq!(bricks.len(), 4);
    // voxel (3,2,1) of a 4x4x4 model sits at (1,0,-1); the second instance moves it to (11,0,-1)
    assert_eq!(bricks[3], Brick { position: (115, 5, -2), size: (5, 5, 2), color: 1, asset: 0, owner: 1, direction: 4, rotation: 0 });
}

#[test]
fn rotated_instance_places_voxels() {
    let models = vec![VoxelModel { size: (1, 1, 1), voxels: vec![voxel(2, 0, 0, 1)] }];
    let instances = vec![ModelInstance { model: 0, position: (0, 0, 0), rotation: Some(1) }];
    let cells = place_voxels(&models, &instances);
    assert_eq!(cells, vec![LatticeCell { x: 0, y: 2, z: 0, color: 0 }]);
}

#[test]
fn microbrick_uses_its_asset() {
    let models = vec![VoxelModel { size: (1, 1, 1), voxels: vec![voxel(0, 0, 0, 1)] }];
    let instances = vec![instance(0, 0, 0, 0)];
    let out = vox2brs(&vec![], &models, &instances, BrickOutputMode::MicroBrick, None, None, false, false, 0, 1, 1).unwrap();
    assert_eq!(out.bricks, vec![Brick { position: (1, 1, 1), size: (1, 1, 1), color: 0, asset: 1, owner: 1, direction: 4, rotation: 0 }]);
}

#[test]
fn errors_for_each_cause() {
    let models = vec![VoxelModel { size: (1, 1, 1), voxels: vec![voxel(0, 0, 0, 1)] }];
    let one = vec![instance(0, 0, 0, 0)];
    assert_eq!(run(&models, &one, BrickOutputMode::Brick, Some(u32::MAX), None, false), Err(ConvertError::BrickSizeTooLarge));
    let far = vec![instance(0, i32::MAX, 0, 0)];
    assert_eq!(run(&models, &far, BrickOutputMode::Brick, None, None, false), Err(ConvertError::PositionOutOfRange));
    let spread = vec![instance(0, -(1 << 29), -(1 << 29), -(1 << 29)), instance(0, 1 << 29, 1 << 29, 1 << 29)];
    assert_eq!(run(&models, &spread, BrickOutputMode::MicroBrick, None, None, true), Err(ConvertError::GridTooLarge));
}

#[test]
fn empty_input_gives_no_bricks() {
    let out = vox2brs(&vec![], &vec![], &vec![], BrickOutputMode::Brick, None, None, true, true, 0, 1, 1).unwrap();
    assert!(out.bricks.is_empty());
}

#[test]
fn grid_flips_y_and_keeps_last_color() {
    let cells = vec![
        LatticeCell { x: 0, y: 0, z: 0, color: 4 },
        LatticeCell { x: 1, y: -1, z: 0, color: 5 },
        LatticeCell { x: 0, y: 0, z: 0, color: 6 },
    ];
    let (g, o) = build_grid(&cells, 1, 1).unwrap();
    assert_eq!(o, (0, 0, 0));
    assert_eq!((g.dx, g.dy, g.dz), (2, 2, 1));
    assert_eq!(g.cells, vec![Some(6), None, None, Some(5)]);
}

#[test]
fn merge_splits_by_color() {
    let g = VoxelGrid { dx: 2, dy: 2, dz: 1, cells: vec![Some(1), Some(1), Some(1), Some(2)] };
    let boxes = merge_boxes(g);
    assert_eq!(boxes, vec![
        MergedBox { x: 0, y: 0, z: 0, w: 2, l: 1, h: 1, color: 1 },
        MergedBox { x: 0, y: 1, z: 0, w: 1, l: 1, h: 1, color: 1 },
        MergedBox { x: 1, y: 1, z: 0, w: 1, l: 1, h: 1, color: 2 },
    ]);
}

#[test]
fn merge_keeps_volume_and_covers_cells_once() {
    let mut cells = Vec::new();
    for i in 0..60usize {
        cells.push(if i % 7 == 3 { None } else { Some((i / 11) as u8 % 3) });
    }
    let g = VoxelGrid { dx: 3, dy: 4, dz: 5, cells: cells.clone() };
    let count = occupied(&g);
    let boxes = merge_boxes(g);
    let volume: usize = boxes.iter().map(|b| b.w * b.l * b.h).sum();
    assert_eq!(volume, count);
    let mut seen = vec![None; 60];
    for b in &boxes {
        for x in b.x..b.x + b.w {
            for y in b.y..b.y + b.l {
                for z in b.z..b.z + b.h {
                    let i = x + y * 3 + z * 12;
                    assert!(seen[i].is_none());
                    seen[i] = Some(b.color);
                }
            }
        }
    }
    assert_eq!(seen, cells);
}

#[test]
fn merge_caps_extent() {
    let g = VoxelGrid { dx: 1, dy: 1, dz: 70, cells: vec![Some(0); 70] };
    let boxes = merge_boxes(g);
    assert_eq!(boxes, vec![
        MergedBox { x: 0, y: 0, z: 0, w: 1, l: 1, h: 64, color: 0 },
        MergedBox { x: 0, y: 0, z: 64, w: 1, l: 1, h: 6, color: 0 },
    ]);
}

#[test]
fn merge_is_repeatable() {
    let cells = vec![Some(1), None, Some(1), Some(1), Some(2), Some(2), None, Some(1)];
    let a = merge_boxes(VoxelGrid { dx: 2, dy: 2, dz: 2, cells: cells.clone() });
    let b = merge_boxes(VoxelGrid { dx: 2, dy: 2, dz: 2, cells });
    assert_eq!(a, b);
}

#[test]
fn claims_only_clear_cells() {
    let g = VoxelGrid { dx: 3, dy: 1, dz: 1, cells: vec![Some(1), Some(2), None] };
    let r = apply_claims(g, &vec![None, Some(2), Some(9)]);
    assert_eq!(r.cells, vec![None, Some(2), None]);
    assert_eq!((r.dx, r.dy, r.dz), (3, 1, 1));
}

#[test]
fn rebase_moves_by_origin() {
    let b = Brick { position: (5, 5, 2), size: (5, 5, 2), color: 0, asset: 2, owner: 1, direction: 1, rotation: 3 };
    let u = UnitSize { half_width: 5, half_height: 2 };
    let out = rebase_bricks(&vec![b], (1, -2, 3), u).unwrap();
    assert_eq!(out, vec![Brick { position: (15, -15, 14), ..b }]);
    assert_eq!(rebase_bricks(&vec![b], (300_000_000, 0, 0), u), None);
}

#[test]
fn ramps_then_merged_rest() {
    let g = VoxelGrid { dx: 1, dy: 1, dz: 3, cells: vec![Some(1), Some(1), Some(1)] };
    let ramp = Brick { position: (5, 5, 2), size: (5, 5, 2), color: 1, asset: 2, owner: 1, direction: 0, rotation: 1 };
    let out = finish_ramps(&vec![ramp], g, &vec![None, Some(1), Some(1)], (1, 2, 3), 0, 1).unwrap();
    assert_eq!(out, vec![
        Brick { position: (15, 25, 14), ..ramp },
        Brick { position: (15, 25, 20), size: (5, 5, 4), color: 1, asset: 0, owner: 1, direction: 4, rotation: 0 },
    ]);
}

#[test]
fn rampify_grid_counts_ramp_cells() {
    let models = vec![VoxelModel { size: (1, 1, 1), voxels: vec![voxel(0, 0, 0, 1)] }];
    let instances = vec![instance(0, 0, 0, 0)];
    let out = vox2brs(&vec![], &models, &instances, BrickOutputMode::Brick, None, None, true, true, 0, 1, 1).unwrap();
    assert_eq!(out.bricks, vec![Brick { position: (5, 5, 18), size: (5, 5, 18), color: 0, asset: 0, owner: 1, direction: 4, rotation: 0 }]);
    let out = vox2brs(&vec![], &models, &instances, BrickOutputMode::Plate, Some(2), None, false, true, 0, 1, 1).unwrap();
    assert_eq!(out.bricks, vec![Brick { position: (10, 10, 2), size: (10, 10, 2), color: 0, asset: 0, owner: 1, direction: 4, rotation: 0 }]);
}

#[test]
fn scaled_grid_fills_blocks() {
    let cells = vec![
        LatticeCell { x: 1, y: 0, z: 0, color: 7 },
        LatticeCell { x: 0, y: 0, z: 0, color: 8 },
    ];
    let (g, o) = build_grid(&cells, 2, 3).unwrap();
    assert_eq!(o, (0, 0, 0));
    assert_eq!((g.dx, g.dy, g.dz), (4, 2, 3));
    for z in 0..3 {
        for y in 0..2 {
            for x in 0..4 {
                let want = if x < 2 { Some(8) } else { Some(7) };
                assert_eq!(g.cells[x + y * 4 + z * 8], want);
            }
        }
    }
}
