use cobble::block::{BlockId, AIR, GRASS, STONE};
use cobble::chunk::{Chunk, CHUNK_SIZE, MAX_LIGHT};
use cobble::chunk_column::ChunkColumn;
use cobble::renderer::block_textures::{block_faces, face_rect, face_texture_key, FaceKind};
use cobble::renderer::mesher::{face, light_level, visible_faces, visible_world_faces};
use cobble::texturepacks::load::{block_atlas_key, build_fallback_atlas, MISSING_TEXTURE_KEY};
use cobble::world::World;

#[test]
fn air_has_no_face_mapping() {
    assert!(block_faces(BlockId(AIR)).is_none());
}

#[test]
fn every_faces_first_triangle_winds_outward() {
    for i in 0..6 {
        let face = face(i);
        let corner = |c: (u8, u8, u8)| [c.0 as i32, c.1 as i32, c.2 as i32];
        let a = corner(face.corners.0);
        let b = corner(face.corners.1);
        let c = corner(face.corners.2);
        let ab = [b[0] - a[0], b[1] - a[1], b[2] - a[2]];
        let ac = [c[0] - a[0], c[1] - a[1], c[2] - a[2]];
        let (u, v) = if face.reversed_winding { (ac, ab) } else { (ab, ac) };
        let cross = [
            u[1] * v[2] - u[2] * v[1],
            u[2] * v[0] - u[0] * v[2],
            u[0] * v[1] - u[1] * v[0],
        ];
        let normal = [face.normal.0 as i32, face.normal.1 as i32, face.normal.2 as i32];
        assert_eq!(
            cross, normal,
            "face with normal {:?} winds to {:?} instead (reversed_winding={})",
            normal, cross, face.reversed_winding
        );
    }
}

#[test]
fn known_block_resolves_to_its_own_atlas_tile() {
    let atlas = build_fallback_atlas();
    let rect = face_rect(&atlas, BlockId(STONE), FaceKind::Side);
    let expected = atlas.rect(&block_atlas_key("stone"));
    assert_eq!(rect, expected);
    assert!(rect.is_some());
}

#[test]
fn grass_uses_different_textures_per_face() {
    let atlas = build_fallback_atlas();
    let top = face_rect(&atlas, BlockId(GRASS), FaceKind::Top);
    let side = face_rect(&atlas, BlockId(GRASS), FaceKind::Side);
    let bottom = face_rect(&atlas, BlockId(GRASS), FaceKind::Bottom);
    assert_eq!(top, atlas.rect(&block_atlas_key("grass_top")));
    assert_eq!(side, atlas.rect(&block_atlas_key("grass_side")));
    assert_eq!(bottom, atlas.rect(&block_atlas_key("dirt")));
    assert_ne!(top, side);
    assert_eq!(face_texture_key(BlockId(GRASS), FaceKind::Top).unwrap(), "blocks/grass_top");
}

#[test]
fn unmapped_block_id_falls_back_to_the_missing_tile() {
    let atlas = build_fallback_atlas();
    let rect = face_rect(&atlas, BlockId(9999), FaceKind::Side);
    assert_eq!(rect, atlas.rect(MISSING_TEXTURE_KEY));
    assert!(rect.is_some());
}

#[test]
fn log_has_end_grain_top_and_bottom() {
    let faces = block_faces(BlockId(17)).unwrap();
    assert_eq!((faces.top, faces.bottom, faces.side), ("log_oak_top", "log_oak_top", "log_oak"));
    assert_eq!(faces.name_for(FaceKind::Side), "log_oak");
}

#[test]
fn single_block_produces_6_culled_faces_all_within_its_own_atlas_tile() {
    let atlas = build_fallback_atlas();
    let mut chunk = Chunk::empty();
    chunk.set(5, 5, 5, BlockId(STONE));
    let faces = visible_faces(&chunk);
    assert_eq!(faces.len(), 6);
    let stone = atlas.rect(&block_atlas_key("stone"));
    for (i, f) in faces.iter().enumerate() {
        assert_eq!((f.x, f.y, f.z, f.face as usize), (5, 5, 5, i));
        assert_eq!(f.block, BlockId(STONE));
        assert_eq!(face_rect(&atlas, f.block, face(i).kind), stone);
    }
}

#[test]
fn buried_block_contributes_no_faces() {
    let mut chunk = Chunk::empty();
    chunk.set(5, 5, 5, BlockId(STONE));
    for (dx, dy, dz) in [(1, 0, 0), (-1, 0, 0), (0, 1, 0), (0, -1, 0), (0, 0, 1), (0, 0, -1)] {
        chunk.set((5 + dx) as usize, (5 + dy) as usize, (5 + dz) as usize, BlockId(STONE));
    }
    let faces = visible_faces(&chunk);
    assert_eq!(faces.len(), 6 * 5);
    assert!(faces.iter().all(|f| (f.x, f.y, f.z) != (5, 5, 5)));
}

#[test]
fn faces_at_the_section_edge_see_open_sky() {
    let mut chunk = Chunk::empty();
    chunk.set(0, 0, 0, BlockId(STONE));
    let faces = visible_faces(&chunk);
    let west = faces.iter().find(|f| f.face == 1).unwrap();
    assert_eq!((west.block_light, west.sky_light), (0, MAX_LIGHT));
    let east = faces.iter().find(|f| f.face == 0).unwrap();
    assert_eq!((east.block_light, east.sky_light), (0, 0));
}

#[test]
fn light_brightness_uses_the_brighter_of_block_and_sky_light() {
    assert_eq!(light_level(0, 0), 0);
    assert_eq!(light_level(MAX_LIGHT, 0), MAX_LIGHT);
    assert_eq!(light_level(0, MAX_LIGHT), MAX_LIGHT);
    assert_eq!(light_level(3, 9), 9);
    assert_eq!(light_level(200, 0), MAX_LIGHT);
}

#[test]
fn world_faces_are_culled_across_column_borders() {
    let mut world = World::new();
    let mut left = ChunkColumn::empty(0, 0);
    left.set_block(CHUNK_SIZE - 1, 10, 0, BlockId(STONE));
    let mut right = ChunkColumn::empty(1, 0);
    right.set_block(0, 10, 0, BlockId(STONE));
    world.insert_column(left);
    world.insert_column(right);
    let faces = visible_world_faces(&world);
    assert_eq!(faces.len(), 10);
    assert!(faces.iter().any(|f| (f.x, f.y, f.z) == (16, 10, 0)));
    assert!(!faces.iter().any(|f| (f.x, f.face) == (15, 0)));
}

#[test]
fn an_all_air_section_shows_no_face() {
    assert!(visible_faces(&Chunk::empty()).is_empty());
    assert!(visible_world_faces(&World::new()).is_empty());
}
