use hlbsp::bytes::read_name;
use hlbsp::error::DecodeError;
use hlbsp::miptex::{MipTex, MipTexture};
use hlbsp::textures::{resolve_textures, TextureMap};
use hlbsp::wad::{entries, Archive};

fn put_u32(out: &mut Vec<u8>, v: u32) {
    out.extend_from_slice(&v.to_le_bytes());
}

fn name_field(name: &str) -> Vec<u8> {
    let mut f = vec![0u8; 16];
    f[..name.len()].copy_from_slice(name.as_bytes());
    f
}

/// An 8x8 texture whose pixels all use palette index `index`; palette entry 0
/// is pure blue, entry 1 is (10, 20, 30).
fn present_miptex(name: &str, index: u8) -> Vec<u8> {
    let mut rec = name_field(name);
    put_u32(&mut rec, 8);
    put_u32(&mut rec, 8);
    let sizes = [64u32, 16, 4, 1];
    let mut off = 40u32;
    for s in sizes {
        put_u32(&mut rec, off);
        off += s;
    }
    for s in sizes {
        rec.extend(std::iter::repeat(index).take(s as usize));
    }
    rec.extend_from_slice(&[0, 0]);
    let mut palette = vec![0u8; 768];
    palette[2] = 255;
    palette[3] = 10;
    palette[4] = 20;
    palette[5] = 30;
    rec.extend_from_slice(&palette);
    rec
}

fn absent_record(name: &str) -> Vec<u8> {
    let mut rec = name_field(name);
    put_u32(&mut rec, 16);
    put_u32(&mut rec, 16);
    for o in [40u32, 0, 296, 360] {
        put_u32(&mut rec, o);
    }
    rec
}

/// A WAD3 archive of the given named records.
fn build_wad(items: &[(&str, Vec<u8>)]) -> Vec<u8> {
    let mut out = b"WAD3".to_vec();
    put_u32(&mut out, items.len() as u32);
    let data_len: usize = items.iter().map(|(_, d)| d.len()).sum();
    put_u32(&mut out, (12 + data_len) as u32);
    let mut positions = Vec::new();
    for (_, d) in items {
        positions.push(out.len() as u32);
        out.extend_from_slice(d);
    }
    for ((name, d), pos) in items.iter().zip(positions) {
        put_u32(&mut out, pos);
        put_u32(&mut out, d.len() as u32);
        put_u32(&mut out, d.len() as u32);
        out.push(0x43);
        out.push(0);
        out.extend_from_slice(&[0, 0]);
        out.extend_from_slice(&name_field(name));
    }
    out
}

#[test]
fn read_empty_cstr() {
    assert_eq!(read_name(&[0u8][..1]), Vec::<u8>::new());
}

#[test]
fn read_without_nul_cstr() {
    assert_eq!(read_name(&[0x41, 0x56, 0u8][..2]), b"AV".to_vec());
}

#[test]
fn read_double_nul_cstr() {
    assert_eq!(read_name(&[0x41, 0x56, 0u8, 0u8, 0x52][..5]), b"AV".to_vec());
}

#[test]
fn miptex_absence() {
    let t = MipTexture::parse(&absent_record("placeholder")).unwrap();
    assert!(t.is_absent());
    assert_eq!(t.name, b"placeholder".to_vec());
    assert_eq!(t.width, 16);
    for level in 0..6 {
        assert!(t.pixels(level).is_none());
    }
}

#[test]
fn miptex_present_levels() {
    let t = MipTexture::parse(&present_miptex("brick", 1)).unwrap();
    assert!(!t.is_absent());
    let level0 = t.pixels(0).unwrap();
    assert_eq!(level0.len(), 64 * 4);
    assert_eq!(&level0[..4], &[10, 20, 30, 255]);
    assert_eq!(t.pixels(3).unwrap(), vec![10, 20, 30, 255]);
    assert!(t.pixels(4).is_none());
    assert_eq!(t.width(2), Some(2));
    assert_eq!(t.height(3), Some(1));
    assert_eq!(t.width(4), None);
}

#[test]
fn transparency_rule() {
    let keyed = MipTexture::parse(&present_miptex("{fence", 0)).unwrap();
    assert_eq!(&keyed.pixels(0).unwrap()[..4], &[0, 0, 255, 0]);
    let plain = MipTexture::parse(&present_miptex("fence", 0)).unwrap();
    assert_eq!(&plain.pixels(0).unwrap()[..4], &[0, 0, 255, 255]);
    let other = MipTexture::parse(&present_miptex("{fence", 1)).unwrap();
    assert_eq!(&other.pixels(1).unwrap()[..4], &[10, 20, 30, 255]);
}

#[test]
fn miptex_truncated_and_bad_name() {
    let mut rec = present_miptex("brick", 1);
    rec.truncate(rec.len() - 1);
    assert_eq!(MipTexture::parse(&rec).err(), Some(DecodeError::OutOfBounds));
    assert_eq!(MipTexture::parse(&rec[..39]).err(), Some(DecodeError::OutOfBounds));
    let mut bad = present_miptex("brick", 1);
    for b in bad[..16].iter_mut() {
        *b = 0xff;
    }
    assert_eq!(MipTexture::parse(&bad).err(), Some(DecodeError::InvalidName));
    let mut full = present_miptex("brick", 1);
    full[..16].copy_from_slice(b"ABCDEFGHIJKLMNOP");
    assert_eq!(MipTexture::parse(&full).unwrap().name, b"ABCDEFGHIJKLMNOP".to_vec());
}

#[test]
fn miptex_header_fields() {
    let rec = present_miptex("brick", 1);
    let h = MipTex::parse(&rec).unwrap();
    assert_eq!(h.get_name(), b"brick".to_vec());
    assert_eq!(h.offsets, [40, 104, 120, 124]);
    assert_eq!(h.get_color_table(&rec).unwrap().len(), 768);
    assert_eq!(h.mip_indices(&rec, 1).unwrap().len(), 16);
}

#[test]
fn wad_archive_read() {
    let file = build_wad(&[("BRICK", present_miptex("BRICK", 1)), ("{FENCE", present_miptex("{FENCE", 0))]);
    let dir = entries(&file).unwrap();
    assert_eq!(dir.len(), 2);
    assert_eq!(dir[1].entry_type, 0x43);
    let archive = Archive::parse(&file).unwrap();
    assert_eq!(archive.entries().len(), 2);
    let e = archive.get_by_name(b"BRICK").unwrap();
    assert_eq!(e.etype(), 0x43);
    assert_eq!(e.data().len(), present_miptex("BRICK", 1).len());
    assert!(archive.get_by_name(b"brick").is_none());
    let t = MipTexture::parse(archive.get_by_name(b"{FENCE").unwrap().data()).unwrap();
    assert_eq!(t.name, b"{FENCE".to_vec());
}

#[test]
fn wad_errors() {
    let mut file = build_wad(&[("BRICK", present_miptex("BRICK", 1))]);
    let mut wrong = file.clone();
    wrong[3] = b'2';
    assert_eq!(Archive::parse(&wrong).err(), Some(DecodeError::VersionMismatch));
    assert_eq!(Archive::parse(&file[..10]).err(), Some(DecodeError::OutOfBounds));
    let dir = file.len() - 32;
    let mut compressed = file.clone();
    compressed[dir + 13] = 1;
    assert_eq!(Archive::parse(&compressed).err(), Some(DecodeError::UnsupportedCompression));
    let mut past = file.clone();
    past[dir + 4..dir + 8].copy_from_slice(&100_000u32.to_le_bytes());
    assert_eq!(Archive::parse(&past).err(), Some(DecodeError::OutOfBounds));
    for b in file[dir + 16..dir + 32].iter_mut() {
        *b = 0xfe;
    }
    assert_eq!(Archive::parse(&file).err(), Some(DecodeError::InvalidName));
}

fn required() -> Vec<Vec<u8>> {
    vec![b"brick".to_vec(), b"{fence".to_vec(), b"stone".to_vec()]
}

#[test]
fn embedded_textures_seed_the_map() {
    let embedded = vec![
        MipTexture::parse(&present_miptex("Brick", 1)).unwrap(),
        MipTexture::parse(&absent_record("{fence")).unwrap(),
    ];
    let map = resolve_textures(&required(), &embedded, &[]);
    assert_eq!(map.textures.len(), 1);
    assert_eq!(map.textures[0].name, b"brick".to_vec());
    assert!(map.contains(b"brick"));
    assert!(!map.contains(b"{fence"));
    assert!(!map.is_complete(&required()));
}

#[test]
fn texture_resolution_idempotence() {
    let a = Archive::parse(&build_wad(&[
        ("{FENCE", present_miptex("{FENCE", 0)),
        ("BRICK", present_miptex("BRICK", 1)),
    ]))
    .unwrap();
    let b = Archive::parse(&build_wad(&[
        ("stone", present_miptex("stone", 1)),
        ("{FENCE", present_miptex("{FENCE", 1)),
    ]))
    .unwrap();
    let embedded = vec![MipTexture::parse(&absent_record("{fence")).unwrap()];
    let once = resolve_textures(&required(), &embedded, std::slice::from_ref(&a));
    let names: Vec<Vec<u8>> = once.textures.iter().map(|t| t.name.clone()).collect();
    assert_eq!(names, vec![b"brick".to_vec(), b"{fence".to_vec()]);

    let mut twice = resolve_textures(&required(), &embedded, std::slice::from_ref(&a));
    twice.resolve_from(&required(), std::slice::from_ref(&a));
    let again: Vec<Vec<u8>> = twice.textures.iter().map(|t| t.name.clone()).collect();
    assert_eq!(again, names);

    let mut more = resolve_textures(&required(), &embedded, std::slice::from_ref(&a));
    more.load_from_archive(&required(), &b);
    assert_eq!(more.textures.len(), 3);
    assert_eq!(more.textures[1].name, b"{fence".to_vec());
    // The fence from the first archive is kept: its pixels use index 0.
    let fence = more.get(b"{fence").unwrap();
    assert_eq!(&fence.pixels(0).unwrap()[..4], &[0, 0, 255, 0]);
    assert_eq!(more.textures[2].name, b"stone".to_vec());
    assert!(more.is_complete(&required()));
}

#[test]
fn lookup_tries_upper_then_lower_case() {
    let a = Archive::parse(&build_wad(&[
        ("stone", present_miptex("stone", 1)),
        ("STONE", present_miptex("STONE", 0)),
    ]))
    .unwrap();
    let mut map = TextureMap::new();
    map.load_from_archive(&[b"Stone".to_vec()], &a);
    assert!(map.get(b"Stone").is_none());
    let t = map.get(b"stone").unwrap();
    assert_eq!(t.name, b"STONE".to_vec());
    assert!(map.is_complete(&[b"Stone".to_vec(), b"STONE".to_vec()]));
    map.load_from_archive(&[b"STONE".to_vec(), b"stone".to_vec()], &a);
    assert_eq!(map.textures.len(), 1);
}

#[test]
fn archive_keeps_last_of_equal_names() {
    let a = Archive::parse(&build_wad(&[
        ("A", present_miptex("A", 0)),
        ("B", present_miptex("B", 1)),
        ("A", present_miptex("A", 1)),
    ]))
    .unwrap();
    let names: Vec<Vec<u8>> = a.entries().iter().map(|e| e.name.clone()).collect();
    assert_eq!(names, vec![b"B".to_vec(), b"A".to_vec()]);
    let t = MipTexture::parse(a.get_by_name(b"A").unwrap().data()).unwrap();
    assert_eq!(&t.pixels(0).unwrap()[..4], &[10, 20, 30, 255]);
}

#[test]
fn read_textures_keeps_last_of_equal_names() {
    let file = build_wad(&[
        ("X", present_miptex("SAME", 0)),
        ("Y", present_miptex("OTHER", 0)),
        ("Z", present_miptex("SAME", 1)),
    ]);
    let textures = hlbsp::wad::read_textures(&file, 0).unwrap();
    assert_eq!(textures.len(), 2);
    assert_eq!(textures[0].0, b"OTHER".to_vec());
    assert_eq!(textures[1].0, b"SAME".to_vec());
    assert_eq!(textures[1].1.get(0, 0), 0xff1e_140a);
}

#[test]
fn read_all_textures_of_archive() {
    let file = build_wad(&[("BRICK", present_miptex("BRICK", 1)), ("{FENCE", present_miptex("{FENCE", 0))]);
    let textures = hlbsp::wad::read_textures(&file, 1).unwrap();
    assert_eq!(textures.len(), 2);
    assert_eq!(textures[0].0, b"BRICK".to_vec());
    assert_eq!((textures[0].1.width, textures[0].1.height), (4, 4));
    assert_eq!(textures[0].1.get(3, 3), 0xff1e_140a);
    assert_eq!(textures[1].1.get(0, 0), 0x00ff_0000);
    let broken = build_wad(&[("BRICK", absent_record("BRICK"))]);
    assert_eq!(hlbsp::wad::read_textures(&broken, 0).err(), Some(DecodeError::OutOfBounds));
}
