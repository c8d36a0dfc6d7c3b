use std::io::{Cursor, Write};

use cobble::texturepacks::atlas::{build_atlas, AtlasRect};
use cobble::texturepacks::cache::{cache_file_name, cached_zip_name, check_download, encode, hex_sha1};
use cobble::texturepacks::coverage::{category_path, check_coverage, CoverageReport};
use cobble::texturepacks::error::TexturePackError;
use cobble::texturepacks::fallback::{generate_fallback_texture, generate_missing_texture, Tile, TEXTURE_SIZE};
use cobble::texturepacks::known_textures::{BLOCK_TEXTURES, ITEM_TEXTURES};
use cobble::texturepacks::load::{
    block_atlas_key, build_fallback_atlas, check_archive_coverage, item_atlas_key, load_pack_from_archive, pack_meta_text,
    MISSING_TEXTURE_KEY,
};
use cobble::texturepacks::modrinth::{FileHashes, Version, VersionFile};
use cobble::texturepacks::pack::{PackMeta, EXPECTED_PACK_FORMAT_1_8};
use zip::write::FileOptions;
use zip::ZipWriter;

fn percentage(report: &CoverageReport) -> f32 {
    if report.total == 0 {
        return 100.0;
    }
    (report.found as f32 / report.total as f32) * 100.0
}

#[test]
fn full_coverage_when_every_known_texture_present() {
    let mut entries = Vec::new();
    for name in BLOCK_TEXTURES {
        entries.push(category_path("blocks", name));
    }
    for name in ITEM_TEXTURES {
        entries.push(category_path("items", name));
    }

    let report = check_coverage(&entries);
    assert_eq!(report.found, report.total);
    assert!(report.missing_blocks.is_empty());
    assert!(report.missing_items.is_empty());
    assert!((percentage(&report) - 100.0).abs() < f32::EPSILON);
}

#[test]
fn partial_coverage_reports_exact_missing_names() {
    let entries = vec![category_path("blocks", "stone"), category_path("items", "apple")];

    let report = check_coverage(&entries);
    assert_eq!(report.found, 2);
    assert_eq!(report.total, BLOCK_TEXTURES.len() + ITEM_TEXTURES.len());
    assert!(!report.missing_blocks.contains(&"stone".to_string()));
    assert!(report.missing_blocks.contains(&"dirt".to_string()));
    assert!(!report.missing_items.contains(&"apple".to_string()));
}

#[test]
fn matches_even_with_an_extra_top_level_folder_in_the_zip() {
    let entries = vec![format!("MyPack-master/{}", category_path("blocks", "stone"))];

    let report = check_coverage(&entries);
    assert!(!report.missing_blocks.contains(&"stone".to_string()));
}

#[test]
fn empty_pack_has_zero_coverage() {
    let report = check_coverage(&[]);
    assert_eq!(report.found, 0);
    assert_eq!(percentage(&report), 0.0);
    assert_eq!(report.missing_blocks.len(), BLOCK_TEXTURES.len());
}

#[test]
fn category_path_spells_out_the_pack_layout() {
    assert_eq!(category_path("blocks", "stone"), "assets/minecraft/textures/blocks/stone.png");
    assert_eq!(block_atlas_key("stone"), "blocks/stone");
    assert_eq!(item_atlas_key("apple"), "items/apple");
}

#[test]
fn hex_sha1_matches_known_vector() {
    assert_eq!(hex_sha1(b"abc"), "a9993e364706816aba3e25717850c26c9cd0d89d");
}

#[test]
fn hex_encoding_is_lowercase_two_digits_per_byte() {
    assert_eq!(encode(&[0x00, 0xab, 0x0f, 0xff]), "00ab0fff");
    assert_eq!(encode(&[]), "");
}

#[test]
fn cached_zip_path_is_stable_for_the_same_hash() {
    let a = cached_zip_name("faithful", "abcdef0123456789");
    let b = cached_zip_name("faithful", "abcdef0123456789");
    assert_eq!(a, b);
    assert!(a.contains("faithful"));
    assert_eq!(a, "faithful-abcdef012345.zip");
    assert_eq!(cached_zip_name("p", "abc"), "p-abc.zip");
}

fn version_file(sha1: Option<&str>, filename: &str, primary: bool) -> VersionFile {
    VersionFile {
        hashes: FileHashes { sha1: sha1.map(|s| s.to_string()), sha512: None },
        url: "https://example.invalid/pack.zip".to_string(),
        filename: filename.to_string(),
        primary,
    }
}

#[test]
fn cache_name_falls_back_to_the_file_name_without_a_hash() {
    let hashed = version_file(Some("a9993e364706816aba3e25717850c26c9cd0d89d"), "Pack.zip", true);
    assert_eq!(cache_file_name("pack", &hashed), "pack-a9993e364706.zip");
    let unhashed = version_file(None, "Pack.zip", true);
    assert_eq!(cache_file_name("pack", &unhashed), "pack-Pack.zip.zip");
}

#[test]
fn download_is_checked_against_the_reported_sha1_in_any_case() {
    let upper = version_file(Some("A9993E364706816ABA3E25717850C26C9CD0D89D"), "p.zip", true);
    assert!(check_download(&upper, b"abc").is_ok());
    let wrong = version_file(Some("0000000000000000000000000000000000000000"), "p.zip", true);
    match check_download(&wrong, b"abc") {
        Err(TexturePackError::HashMismatch { expected, actual }) => {
            assert_eq!(expected, "0000000000000000000000000000000000000000");
            assert_eq!(actual, "a9993e364706816aba3e25717850c26c9cd0d89d");
        },
        _ => panic!("expected a hash mismatch"),
    }
    assert!(check_download(&version_file(None, "p.zip", true), b"anything").is_ok());
}

#[test]
fn zip_file_prefers_the_primary_zip() {
    let version = Version {
        id: "v".to_string(),
        version_number: "1".to_string(),
        game_versions: vec!["1.8.9".to_string()],
        files: vec![
            version_file(None, "readme.txt", true),
            version_file(None, "first.zip", false),
            version_file(None, "main.zip", true),
        ],
    };
    assert_eq!(version.zip_file().unwrap().filename, "main.zip");
    let no_primary = Version {
        id: "v".to_string(),
        version_number: "1".to_string(),
        game_versions: Vec::new(),
        files: vec![version_file(None, "a.txt", false), version_file(None, "b.zip", false)],
    };
    assert_eq!(no_primary.zip_file().unwrap().filename, "b.zip");
    let none = Version { id: String::new(), version_number: String::new(), game_versions: Vec::new(), files: Vec::new() };
    assert!(none.zip_file().is_none());
}

fn fallback_tiles(n: usize) -> Vec<(String, Tile)> {
    (0..n).map(|i| (format!("tile_{i}"), generate_fallback_texture())).collect()
}

#[test]
fn every_tile_gets_a_distinct_non_overlapping_rect() {
    let tiles = fallback_tiles(17);
    let names: Vec<String> = tiles.iter().map(|(n, _)| n.clone()).collect();
    let atlas = build_atlas(tiles);

    let mut seen = std::collections::HashSet::new();
    for name in &names {
        let rect = atlas.rect(name).expect("every tile should have a rect");
        assert!(seen.insert((rect.x, rect.y)), "overlapping rect for {name}");
        assert!(rect.x + TEXTURE_SIZE <= atlas.size());
        assert!(rect.y + TEXTURE_SIZE <= atlas.size());
    }
    assert_eq!(atlas.size(), 5 * TEXTURE_SIZE);
    assert_eq!(atlas.rect("tile_5"), Some(AtlasRect { x: 0, y: 16 }));
}

#[test]
fn unknown_name_has_no_rect() {
    let atlas = build_atlas(vec![("stone".to_string(), generate_fallback_texture())]);
    assert!(atlas.rect("does_not_exist").is_none());
    assert_eq!(atlas.size(), TEXTURE_SIZE);
}

#[test]
fn oversized_tile_is_resized_to_fit() {
    // Left half red, right half blue.
    let mut pixels = Vec::new();
    for _y in 0..32 {
        for x in 0..32 {
            pixels.extend_from_slice(if x < 16 { &[255, 0, 0, 255] } else { &[0, 0, 255, 255] });
        }
    }
    let big = Tile { width: 32, height: 32, pixels };
    let atlas = build_atlas(vec![("weird".to_string(), big)]);
    assert_eq!(atlas.image.width % TEXTURE_SIZE, 0);
    let rect = atlas.rect("weird").unwrap();
    assert!(rect.x + TEXTURE_SIZE <= atlas.size());
    assert_eq!(atlas.image.pixels.len(), 16 * 16 * 4);
    // The whole tile was scaled down: its right edge is blue.
    assert_eq!(&atlas.image.pixels[15 * 4..16 * 4], &[0, 0, 255, 255]);
    assert_eq!(&atlas.image.pixels[0..4], &[255, 0, 0, 255]);
}

#[test]
fn archive_coverage_counts_the_zip_entries() {
    let report = check_archive_coverage(&build_test_pack(true)).unwrap();
    assert_eq!(report.found, 1);
    assert!(matches!(check_archive_coverage(b"nope"), Err(TexturePackError::Zip(_))));
}

#[test]
fn a_name_placed_twice_resolves_to_the_later_tile() {
    let atlas = build_atlas(vec![
        ("dup".to_string(), generate_fallback_texture()),
        ("other".to_string(), generate_fallback_texture()),
        ("dup".to_string(), generate_fallback_texture()),
    ]);
    assert_eq!(atlas.rect("dup"), Some(AtlasRect { x: 0, y: 16 }));
}

#[test]
fn atlas_pixels_hold_the_placed_tile() {
    let atlas = build_atlas(vec![("a".to_string(), generate_missing_texture())]);
    assert_eq!(&atlas.image.pixels[0..4], &[230, 20, 230, 255]);
}

#[test]
fn is_the_requested_size() {
    let img = generate_fallback_texture();
    assert_eq!(img.width, TEXTURE_SIZE);
    assert_eq!(img.height, TEXTURE_SIZE);
    assert_eq!(img.pixels.len(), 16 * 16 * 4);
}

#[test]
fn is_deterministic() {
    assert_eq!(generate_fallback_texture().pixels, generate_fallback_texture().pixels);
}

#[test]
fn uses_only_the_two_neutral_gray_tones() {
    let img = generate_fallback_texture();
    for pixel in img.pixels.chunks(4) {
        assert!(pixel == [138, 138, 138, 255] || pixel == [96, 96, 96, 255], "unexpected pixel {pixel:?}");
    }
}

#[test]
fn is_actually_checkered_not_flat() {
    let img = generate_fallback_texture();
    let has_light = img.pixels.chunks(4).any(|p| p == [138, 138, 138, 255]);
    let has_dark = img.pixels.chunks(4).any(|p| p == [96, 96, 96, 255]);
    assert!(has_light && has_dark);
    assert_eq!(&img.pixels[0..4], &[138, 138, 138, 255]);
    assert_eq!(&img.pixels[16..20], &[96, 96, 96, 255]);
}

#[test]
fn missing_texture_is_magenta_and_black() {
    let img = generate_missing_texture();
    assert_eq!(&img.pixels[0..4], &[230, 20, 230, 255]);
    assert_eq!(&img.pixels[16..20], &[20, 20, 20, 255]);
}

#[test]
fn fallback_atlas_covers_every_known_texture_with_no_pack_at_all() {
    let atlas = build_fallback_atlas();
    for name in BLOCK_TEXTURES {
        assert!(atlas.rect(&block_atlas_key(name)).is_some());
    }
    for name in ITEM_TEXTURES {
        assert!(atlas.rect(&item_atlas_key(name)).is_some());
    }
    assert!(atlas.rect(MISSING_TEXTURE_KEY).is_some());
}

fn build_test_pack(include_stone: bool) -> Vec<u8> {
    let mut buf = Vec::new();
    {
        let mut writer = ZipWriter::new(Cursor::new(&mut buf));
        writer.start_file("pack.mcmeta", FileOptions::default()).unwrap();
        writer.write_all(br#"{"pack":{"pack_format":1,"description":"test"}}"#).unwrap();
        if include_stone {
            writer.start_file("assets/minecraft/textures/blocks/stone.png", FileOptions::default()).unwrap();
            let img = image::RgbaImage::from_pixel(16, 16, image::Rgba([200, 10, 10, 255]));
            let mut png_bytes = Vec::new();
            image::DynamicImage::ImageRgba8(img)
                .write_to(&mut Cursor::new(&mut png_bytes), image::ImageOutputFormat::Png)
                .unwrap();
            writer.write_all(&png_bytes).unwrap();
        }
        writer.finish().unwrap();
    }
    buf
}

fn meta() -> PackMeta {
    PackMeta { pack_format: 1, description: "test".to_string() }
}

#[test]
fn loads_pack_texture_when_present_and_fallback_otherwise() {
    let archive = build_test_pack(true);
    assert_eq!(pack_meta_text(&archive).unwrap(), r#"{"pack":{"pack_format":1,"description":"test"}}"#);
    let loaded = load_pack_from_archive(&archive, meta()).unwrap();
    assert!(loaded.meta.matches_1_8());
    assert_eq!(loaded.coverage.found, 1);
    let stone = loaded.atlas.rect(&block_atlas_key("stone")).unwrap();
    assert!(loaded.atlas.rect(&block_atlas_key("dirt")).is_some());
    let size = loaded.atlas.size() as usize;
    let at = ((stone.y as usize) * size + stone.x as usize) * 4;
    assert_eq!(&loaded.atlas.image.pixels[at..at + 4], &[200, 10, 10, 255]);
}

#[test]
fn loaded_pack_atlas_also_has_the_missing_texture_tile() {
    let loaded = load_pack_from_archive(&build_test_pack(false), meta()).unwrap();
    assert!(loaded.atlas.rect(MISSING_TEXTURE_KEY).is_some());
}

#[test]
fn every_known_texture_gets_a_slot_even_with_an_empty_pack() {
    let loaded = load_pack_from_archive(&build_test_pack(false), meta()).unwrap();
    assert_eq!(loaded.coverage.found, 0);
    for name in BLOCK_TEXTURES {
        assert!(loaded.atlas.rect(&block_atlas_key(name)).is_some());
    }
    for name in ITEM_TEXTURES {
        assert!(loaded.atlas.rect(&item_atlas_key(name)).is_some());
    }
}

#[test]
fn missing_mcmeta_is_an_error() {
    let mut buf = Vec::new();
    {
        let writer = ZipWriter::new(Cursor::new(&mut buf));
        let mut writer = writer;
        writer.finish().unwrap();
    }
    match pack_meta_text(&buf) {
        Err(TexturePackError::InvalidPackMeta(message)) => assert_eq!(message, "no pack.mcmeta in archive"),
        _ => panic!("expected invalid pack metadata"),
    }
}

#[test]
fn bytes_that_are_not_a_zip_are_a_zip_error() {
    assert!(matches!(pack_meta_text(b"not a zip"), Err(TexturePackError::Zip(_))));
    assert!(matches!(load_pack_from_archive(b"not a zip", meta()), Err(TexturePackError::Zip(_))));
}

#[test]
fn flags_mismatched_pack_format_without_erroring() {
    let meta = PackMeta { pack_format: 3, description: "newer pack".to_string() };
    assert!(!meta.matches_1_8());
    assert!(PackMeta { pack_format: EXPECTED_PACK_FORMAT_1_8, description: String::new() }.matches_1_8());
}

#[test]
fn every_known_name_is_either_found_or_missing() {
    let entries = vec![category_path("blocks", "stone"), category_path("blocks", "dirt"), category_path("items", "apple")];
    let report = check_coverage(&entries);
    assert_eq!(report.found + report.missing_blocks.len() + report.missing_items.len(), report.total);
    assert_eq!(report.found, 3);
}
