use voxel_mesh::builder::build;
use voxel_mesh::mesh::MeshType;
use voxel_mesh::shader::TextureWord;
use voxel_mesh::texture::{TextureID, TextureIndex};
use voxel_mesh::world::{Block, ChunkID, NeighborMask, Side, VoxelChunk};

fn solid_block(slot: u32, light: u8) -> Block {
    Block { mesh: MeshType::cube_all(TextureID { slot }), light }
}

fn single_voxel_chunk(id: u64, slot: u32, light: u8) -> VoxelChunk {
    VoxelChunk { id: ChunkID { id }, size: 1, blocks: vec![solid_block(slot, light)] }
}

fn mask(top: bool, bottom: bool, left: bool, right: bool, front: bool, back: bool) -> NeighborMask {
    NeighborMask { top, bottom, left, right, front, back }
}

#[test]
fn packed_word_layout() {
    let t = TextureWord { slot: 1, light: 2, corner: 3 };
    let w = t.pack();
    assert_eq!(w, 0x8000 + 8 + 3);
    let u = TextureWord::unpack(w);
    assert_eq!(u, t);
}

#[test]
fn packed_word_roundtrip_extremes() {
    let t = TextureWord { slot: 0x1FFFF, light: 15, corner: 0 };
    let w = t.pack();
    assert_eq!(TextureWord::unpack(w), t);
    let z = TextureWord { slot: 0, light: 0, corner: 0 };
    assert_eq!(z.pack(), 0);
}

#[test]
fn fully_open_voxel_emits_six_faces() {
    let chunk = single_voxel_chunk(7, 3, 9);
    let (verts, inds) = build(&chunk, mask(false, false, false, false, false, false));
    assert_eq!(verts.len(), 24);
    assert_eq!(inds.len(), 36);
}

#[test]
fn three_occluded_neighbors_emit_three_faces() {
    let chunk = single_voxel_chunk(7, 3, 9);
    let (verts, inds) = build(&chunk, mask(true, true, true, false, false, false));
    assert_eq!(verts.len(), 3 * 4);
    assert_eq!(inds.len(), 3 * 6);
}

#[test]
fn fully_occluded_voxel_emits_nothing() {
    let chunk = single_voxel_chunk(7, 3, 9);
    let (verts, inds) = build(&chunk, mask(true, true, true, true, true, true));
    assert_eq!(verts.len(), 0);
    assert_eq!(inds.len(), 0);
}

#[test]
fn top_face_geometry_is_exact() {
    let chunk = single_voxel_chunk(1, 5, 2);
    let (verts, inds) = build(&chunk, mask(false, true, true, true, true, true));
    assert_eq!(verts.len(), 4);
    let corners: Vec<(u32, u32, u32)> =
        verts.iter().map(|v| (v.pos_x, v.pos_y, v.pos_z)).collect();
    assert_eq!(corners, vec![(0, 1, 0), (1, 1, 0), (1, 1, 1), (0, 1, 1)]);
    for (k, v) in verts.iter().enumerate() {
        let expected = TextureWord { slot: 5, light: 2, corner: k as u8 }.pack();
        assert_eq!(v.txtr, expected);
    }
    assert_eq!(inds, vec![0, 1, 2, 0, 2, 3]);
}

#[test]
fn internal_shared_faces_are_culled() {
    // A 2x2x2 chunk with two solid voxels side by side along x: the two
    // touching faces are culled, leaving 10 of the 12 faces.
    let air = Block { mesh: MeshType::Null, light: 0 };
    let solid = solid_block(4, 1);
    let mut blocks = vec![air; 8];
    blocks[0] = solid.clone();
    blocks[1] = solid;
    let chunk = VoxelChunk { id: ChunkID { id: 3 }, size: 2, blocks };
    let (verts, inds) = build(&chunk, mask(false, false, false, false, false, false));
    assert_eq!(verts.len(), 10 * 4);
    assert_eq!(inds.len(), 10 * 6);
}

#[test]
fn null_blocks_emit_no_geometry() {
    let air = Block { mesh: MeshType::Null, light: 0 };
    let chunk = VoxelChunk { id: ChunkID { id: 3 }, size: 1, blocks: vec![air] };
    let (verts, inds) = build(&chunk, mask(false, false, false, false, false, false));
    assert!(verts.is_empty());
    assert!(inds.is_empty());
}

#[test]
fn builder_is_deterministic() {
    let air = Block { mesh: MeshType::Null, light: 0 };
    let mut blocks = vec![air; 27];
    blocks[0] = solid_block(9, 7);
    blocks[13] = solid_block(2, 3);
    blocks[26] = solid_block(1, 15);
    let chunk = VoxelChunk { id: ChunkID { id: 11 }, size: 3, blocks };
    let m = mask(false, true, false, true, false, true);
    let (v1, i1) = build(&chunk, m);
    let (v2, i2) = build(&chunk, m);
    assert_eq!(v1, v2);
    assert_eq!(i1, i2);
}

#[test]
fn cube_except_one_overrides_single_side() {
    let base = TextureID { slot: 10 };
    let single = TextureID { slot: 20 };
    let m = MeshType::cube_except_one(base, single, Side::Top);
    match m {
        MeshType::Cube { top, bottom, left, right, front, back } => {
            assert_eq!(top, single);
            assert_eq!(bottom, base);
            assert_eq!(left, base);
            assert_eq!(right, base);
            assert_eq!(front, base);
            assert_eq!(back, base);
        }
        MeshType::Null => panic!("expected a cube"),
    }
}

#[test]
fn cube_individual_keeps_each_side() {
    let ids: Vec<TextureID> = (0..6).map(|i| TextureID { slot: i }).collect();
    let m = MeshType::cube_individual(ids[0], ids[1], ids[2], ids[3], ids[4], ids[5]);
    assert_eq!(
        m,
        MeshType::Cube {
            top: ids[0],
            bottom: ids[1],
            left: ids[2],
            right: ids[3],
            front: ids[4],
            back: ids[5],
        }
    );
}

#[test]
fn texture_index_resolves_registered_names() {
    let mut idx = TextureIndex::new();
    let dirt = idx.register(String::from("dirt")).unwrap();
    let stone = idx.register(String::from("stone")).unwrap();
    assert_eq!(dirt.slot, 0);
    assert_eq!(stone.slot, 1);
    assert_eq!(idx.resolve(&String::from("stone")), Some(stone));
    assert_eq!(idx.resolve(&String::from("dirt")), Some(dirt));
    assert_eq!(idx.resolve(&String::from("grass")), None);
}
