use hlbsp::cubemap::{Cubemap, CubemapError, SideImage};
use hlbsp::entities::{
    find_info_player_start, find_worldspawn, get_skyname, parse_entities, split_bytes, wads_as_dependencies,
    Entities,
};
use hlbsp::lump::Lump;
use hlbsp::maxrects::{find_best_area, place_rect, Rect};
use hlbsp::miptex::{MipTex, MipTexture, Texture};
use hlbsp::record::read_mul_structs;
use hlbsp::records::{Clipnode, Edge};

fn rect(x: u32, y: u32, width: u32, height: u32) -> Rect {
    Rect { x, y, width, height }
}

#[test]
fn rect_containment_and_intersection() {
    let outer = rect(0, 0, 10, 10);
    assert!(rect(2, 2, 3, 3).is_contained_in(&outer));
    assert!(outer.is_contained_in(&outer));
    assert!(!rect(8, 8, 3, 3).is_contained_in(&outer));
    assert!(rect(8, 8, 3, 3).intersects(&outer));
    assert!(!rect(10, 0, 3, 3).intersects(&outer));
    assert!(!rect(0, 10, 3, 3).intersects(&outer));
}

#[test]
fn best_area_prefers_tightest_fit() {
    let free = vec![rect(0, 0, 100, 100), rect(200, 0, 10, 12), rect(300, 0, 12, 10)];
    // Both small rectangles leave 20 units of area and a leftover side of 0:
    // the tie keeps the earlier one.
    assert_eq!(find_best_area(&free, 10, 10), Some(rect(200, 0, 10, 10)));
    assert_eq!(find_best_area(&free, 11, 11), Some(rect(0, 0, 11, 11)));
    assert_eq!(find_best_area(&free, 101, 1), None);
}

#[test]
fn place_rect_splits_free_space() {
    let mut free = vec![rect(0, 0, 64, 64)];
    let placed = place_rect(&mut free, 16, 32).unwrap();
    assert_eq!(placed, rect(0, 0, 16, 32));
    assert_eq!(free.len(), 2);
    assert!(free.contains(&rect(0, 32, 64, 32)));
    assert!(free.contains(&rect(16, 0, 48, 64)));
    for r in &free {
        assert!(!r.intersects(&placed));
    }
    let second = place_rect(&mut free, 48, 64).unwrap();
    assert_eq!(second, rect(16, 0, 48, 64));
    assert_eq!(free, vec![rect(0, 32, 16, 32)]);
    let before = free.clone();
    assert_eq!(place_rect(&mut free, 17, 1), None);
    assert_eq!(free, before);
}

#[test]
fn entities_parse() {
    let text = b" {\n\"classname\" \"worldspawn\"\n\"skyname\" \"desert\"\n\"wad\" \"a.wad;b.wad\"\n}\n{ \"classname\" \"info_player_start\" \"origin\" \"1 2 3\" }\n\0junk";
    let entities = parse_entities(text).unwrap();
    assert_eq!(entities.entities().len(), 2);
    let world = find_worldspawn(&entities).unwrap();
    assert_eq!(world.properties().len(), 3);
    assert_eq!(world.get(b"wad"), Some(&b"a.wad;b.wad"[..]));
    assert_eq!(get_skyname(&entities), Some(b"desert".to_vec()));
    let start = find_info_player_start(&entities).unwrap();
    assert_eq!(start.get(b"origin"), Some(&b"1 2 3"[..]));
    assert_eq!(start.get(b"angle"), None);
}

#[test]
fn entities_stop_at_malformed_block() {
    let parsed = Entities::parse(b"{ \"a\" \"1\" \"a\" \"2\" } { \"b\" \"unterminated } { \"c\" \"3\" }");
    assert_eq!(parsed.entities().len(), 1);
    assert_eq!(parsed.entities()[0].get(b"a"), Some(&b"2"[..]));
    assert!(get_skyname(&parsed).is_none());
    assert!(find_info_player_start(&parsed).is_none());
    assert!(parse_entities(b"{ }").is_none());
    assert!(parse_entities(b"{ \"k\" \"\xff\" }\0").is_none());
    assert_eq!(parse_entities(b"\0").unwrap().entities().len(), 0);
}

fn side(width: u32, height: u32) -> SideImage {
    SideImage { width, height, rgba: vec![7; (width * height * 4) as usize] }
}

#[test]
fn cubemap_sides() {
    let c = Cubemap::from_sides((0..6).map(|_| side(4, 4)).collect()).unwrap();
    assert_eq!(c.dimension(), 4);
    assert_eq!(c.sides().len(), 6);
    assert_eq!(c.sides()[5].len(), 64);
    let mut sides: Vec<SideImage> = (0..6).map(|_| side(4, 4)).collect();
    sides[3] = side(8, 8);
    assert_eq!(
        Cubemap::from_sides(sides).err(),
        Some(CubemapError::DifferentDimension { got: 8, expected: 4 })
    );
    let mut sides: Vec<SideImage> = (0..6).map(|_| side(4, 4)).collect();
    sides[2] = side(4, 2);
    assert_eq!(Cubemap::from_sides(sides).err(), Some(CubemapError::NotSquare { width: 4, height: 2 }));
}

fn miptex_record(name: &str, index: u8) -> Vec<u8> {
    let mut rec = vec![0u8; 16];
    rec[..name.len()].copy_from_slice(name.as_bytes());
    rec.extend_from_slice(&8u32.to_le_bytes());
    rec.extend_from_slice(&4u32.to_le_bytes());
    let mut off = 40u32;
    for s in [32u32, 8, 2, 0] {
        rec.extend_from_slice(&off.to_le_bytes());
        off += s;
    }
    // The last level of an 8x4 texture holds no whole pixel: its offset is
    // where it would start.
    let n = rec.len();
    rec[n - 4..].copy_from_slice(&(40u32 + 42).to_le_bytes());
    rec.extend(std::iter::repeat(index).take(42));
    rec.extend_from_slice(&[0, 0]);
    let mut palette = vec![0u8; 768];
    palette[2] = 255;
    palette[3..6].copy_from_slice(&[1, 2, 3]);
    rec.extend_from_slice(&palette);
    rec
}

#[test]
fn texture_pixels_get_and_set() {
    let rec = miptex_record("{grate", 0);
    let header = MipTex::parse(&rec).unwrap();
    let mut t: Texture = header.get_texture(&rec, 0).unwrap();
    assert_eq!((t.width, t.height), (8, 4));
    assert_eq!(t.pixels.len(), 32);
    assert_eq!(t.get(7, 3), 0x00ff_0000);
    t.set(7, 3, 0x1234_5678);
    assert_eq!(t.get(7, 3), 0x1234_5678);
    assert_eq!(t.pixels[31], 0x1234_5678);
    let level1 = header.get_texture(&rec, 1).unwrap();
    assert_eq!((level1.width, level1.height, level1.pixels.len()), (4, 2, 8));
    let plain = miptex_record("grate", 1);
    let h = MipTex::parse(&plain).unwrap();
    let table = h.get_color_table(&plain).unwrap();
    let t = h.read_texture(&plain, table, 0).unwrap();
    assert_eq!(t.get(0, 0), 0xff03_0201);
}

#[test]
fn texture_color_lookup() {
    let t = MipTexture::parse(&miptex_record("grate", 1)).unwrap();
    assert_eq!(t.color(0, 7, 3), Some([1, 2, 3]));
    assert_eq!(t.color(0, 0, 4), None);
    assert_eq!(t.color(4, 0, 0), None);
}

#[test]
fn records_split_buffers() {
    let bytes = [1u8, 0, 2, 0, 3, 0, 4, 0, 9];
    let edges: Vec<Edge> = read_mul_structs(&bytes);
    assert_eq!(edges, vec![Edge { v0: 1, v1: 2 }, Edge { v0: 3, v1: 4 }]);
    let clip: Vec<Clipnode> = read_mul_structs(&[0xff, 0xff, 0xff, 0xff, 0xfe, 0xff, 5, 0]);
    assert_eq!(clip[0].plane, -1);
    assert_eq!(clip[0].children, [-2, 5]);
    let lump = Lump { offset: 2, length: 4 };
    let within: Vec<Edge> = lump.read_array(&bytes).unwrap();
    assert_eq!(within, vec![Edge { v0: 2, v1: 3 }]);
    let one: Edge = lump.read_struct(&bytes).unwrap();
    assert_eq!(one, Edge { v0: 2, v1: 3 });
    let past = Lump { offset: 6, length: 4 };
    assert!(past.read_array::<Edge>(&bytes).is_err());
    assert!(Lump { offset: 7, length: 0 }.read_struct::<Edge>(&bytes).is_err());
}

#[test]
fn wad_key_names_archives() {
    let names = wads_as_dependencies(b"\\half-life\\valve\\halflife.wad;decals.wad;C:\\maps\\x\\liquids.wad");
    assert_eq!(names, vec![b"halflife.wad".to_vec(), b"decals.wad".to_vec(), b"liquids.wad".to_vec()]);
    assert_eq!(split_bytes(b"a;;b;", b';'), vec![b"a".to_vec(), vec![], b"b".to_vec(), vec![]]);
    assert_eq!(split_bytes(b"", b';'), vec![Vec::<u8>::new()]);
}

#[test]
fn odd_sized_level_pixel_count() {
    // A 3x3 texture: its levels hold 9, 2, 0 and 0 indices.
    let mut rec = vec![0u8; 16];
    rec[..3].copy_from_slice(b"odd");
    rec.extend_from_slice(&3u32.to_le_bytes());
    rec.extend_from_slice(&3u32.to_le_bytes());
    for off in [40u32, 49, 51, 51] {
        rec.extend_from_slice(&off.to_le_bytes());
    }
    rec.extend(std::iter::repeat(1u8).take(11));
    rec.extend_from_slice(&[0, 0]);
    let mut palette = vec![0u8; 768];
    palette[3..6].copy_from_slice(&[1, 2, 3]);
    rec.extend_from_slice(&palette);
    let header = MipTex::parse(&rec).unwrap();
    let level1 = header.get_texture(&rec, 1).unwrap();
    assert_eq!((level1.width, level1.height), (1, 1));
    assert_eq!(level1.pixels, vec![0xff03_0201, 0xff03_0201]);
    let decoded = MipTexture::parse(&rec).unwrap();
    assert_eq!(decoded.pixels(1).unwrap().len(), 2 * 4);
}
