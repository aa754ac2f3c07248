use q3bsp::directory_header::{directory_entry, directory_header, DirectoryEntry};
use q3bsp::entity::{parse_entity, parse_entity_value, parse_param, DecimalText, EntityValue};
use q3bsp::helpers::{
    consume_to_vec, le_f32, le_i32, le_u32, le_u8, mandatory_whitespace, many1, parse_ivec2,
    parse_ivec3, parse_str_float, parse_str_int, parse_vec, parse_vec2, parse_vec3, take_s,
    whitespace, ParseError,
};
use q3bsp::raw_bsp::{FaceType, RawLeafFace};
use q3bsp::raw_bsp_parsers::{
    get_from_header, many1_from_header, parse_face_type, parse_light_volume, parse_lightmap,
    parse_plane, parse_rotation_direction,
    parse_raw_bsp, parse_raw_face, parse_raw_leaf, parse_raw_node, parse_texture,
    parse_visibility_data,
};

fn le(v: i32) -> [u8; 4] {
    v.to_le_bytes()
}

fn dec(s: &str) -> DecimalText {
    DecimalText { bytes: s.as_bytes().to_vec() }
}

#[test]
fn little_endian_integers() {
    assert_eq!(le_u8(&[7, 1]), Ok((1, 7)));
    assert_eq!(le_u32(&[1, 2, 0, 0, 9]), Ok((4, 0x0201)));
    assert_eq!(le_i32(&[0xff, 0xff, 0xff, 0xff]), Ok((4, -1)));
    assert_eq!(le_i32(&[1, 2, 3]), Err(ParseError::Incomplete));
    assert_eq!(le_u8(&[]), Err(ParseError::Incomplete));
}

#[test]
fn floats_are_read_as_bit_patterns() {
    let one = 1.0f32.to_bits().to_le_bytes();
    assert_eq!(le_f32(&one), Ok((4, 0x3f80_0000)));
    let mut v = Vec::new();
    v.extend_from_slice(&one);
    v.extend_from_slice(&2.0f32.to_bits().to_le_bytes());
    v.extend_from_slice(&(-0.5f32).to_bits().to_le_bytes());
    assert_eq!(parse_vec3(&v), Ok((12, [1.0f32.to_bits(), 2.0f32.to_bits(), (-0.5f32).to_bits()])));
    assert_eq!(parse_vec3(&v[..11]), Err(ParseError::Incomplete));
}

#[test]
fn integer_vectors() {
    let mut v = Vec::new();
    v.extend_from_slice(&le(-3));
    v.extend_from_slice(&le(4));
    v.extend_from_slice(&le(70000));
    assert_eq!(parse_ivec3(&v), Ok((12, [-3, 4, 70000])));
}

#[test]
fn pairs_and_light_volumes() {
    let mut v = Vec::new();
    v.extend_from_slice(&le(-7));
    v.extend_from_slice(&le(8));
    assert_eq!(parse_ivec2(&v), Ok((8, [-7, 8])));
    assert_eq!(parse_vec2(&v), Ok((8, [(-7i32) as u32, 8])));
    assert_eq!(parse_ivec2(&v[..7]), Err(ParseError::Incomplete));
    assert_eq!(parse_rotation_direction(&[3, 4, 5]), Ok((2, q3bsp::raw_bsp::RotationDirection { phi: 3, theta: 4 })));
    assert_eq!(parse_rotation_direction(&[3]), Err(ParseError::Incomplete));
    let (n, l) = parse_light_volume(&[1, 2, 3, 4, 5, 6, 7, 8, 9]).unwrap();
    assert_eq!(n, 8);
    assert_eq!(l.ambient, [1, 2, 3]);
    assert_eq!(l.directional, [4, 5, 6]);
    assert_eq!(l.direction.phi, 7);
    assert_eq!(l.direction.theta, 8);
    assert_eq!(parse_light_volume(&[1, 2, 3, 4, 5, 6, 7]).map(|(n, _)| n), Err(ParseError::Incomplete));
}

#[test]
fn decimal_integers() {
    assert_eq!(parse_str_int(b"123 "), Ok((3, 123)));
    assert_eq!(parse_str_int(b"-45\""), Ok((3, -45)));
    assert_eq!(parse_str_int(b"7"), Ok((1, 7)));
    assert_eq!(parse_str_int(b"2147483647"), Ok((10, i32::MAX)));
    assert_eq!(parse_str_int(b"-2147483648"), Ok((11, i32::MIN)));
    assert_eq!(parse_str_int(b"2147483648"), Err(ParseError::Error));
    assert_eq!(parse_str_int(b"99999999999999999999"), Err(ParseError::Error));
    assert_eq!(parse_str_int(b""), Err(ParseError::Incomplete));
    assert_eq!(parse_str_int(b"x1"), Err(ParseError::Error));
    assert_eq!(parse_str_int(b"-"), Err(ParseError::Error));
    assert_eq!(parse_str_int(b"-a"), Err(ParseError::Error));
}

#[test]
fn decimal_numbers_keep_their_text() {
    assert_eq!(parse_str_float(b"1.5 "), Ok((3, dec("1.5"))));
    assert_eq!(parse_str_float(b"-0.25\""), Ok((5, dec("-0.25"))));
    assert_eq!(parse_str_float(b"12 "), Ok((2, dec("12"))));
    assert_eq!(parse_str_float(b"1. "), Ok((1, dec("1"))));
    assert_eq!(parse_str_float(b"3.5"), Ok((3, dec("3.5"))));
    assert_eq!(parse_str_float(b"12"), Err(ParseError::Incomplete));
    assert_eq!(parse_str_float(b""), Err(ParseError::Incomplete));
    assert_eq!(parse_str_float(b"-x"), Err(ParseError::Error));
    assert_eq!(parse_str_float(b".5"), Err(ParseError::Error));
}

#[test]
fn whitespace_runs() {
    assert_eq!(whitespace(b"  \t\nx"), 4);
    assert_eq!(whitespace(b"x "), 0);
    assert_eq!(whitespace(b""), 0);
    assert_eq!(whitespace(&[0x00, 0x7f, 0x85, 0xa0, 0xa1]), 4);
    assert_eq!(mandatory_whitespace(b" \r\nz"), Ok((3, ())));
    assert_eq!(mandatory_whitespace(b"z"), Err(ParseError::Error));
    assert_eq!(mandatory_whitespace(b""), Err(ParseError::Error));
}

#[test]
fn fixed_width_text() {
    assert_eq!(take_s(b"abc\0def", 7), Ok((7, "abc".to_string())));
    assert_eq!(take_s(b"abcdefg", 3), Ok((3, "abc".to_string())));
    assert_eq!(take_s(b"ab", 3), Err(ParseError::Incomplete));
    assert_eq!(take_s(&[0xff, 0xfe, 0], 3), Err(ParseError::Error));
    assert_eq!(take_s(&[0, 0xff], 2), Ok((2, String::new())));
}

#[test]
fn texture_record() {
    let mut v = vec![0u8; 72];
    v[..5].copy_from_slice(b"walls");
    v[64..68].copy_from_slice(&0xfff8_0084u32.to_le_bytes());
    v[68..72].copy_from_slice(&0x0000_7001u32.to_le_bytes());
    let (n, t) = parse_texture(&v).unwrap();
    assert_eq!(n, 72);
    assert_eq!(t.name, "walls");
    assert_eq!(t.surface_flags.bits(), 0x84);
    assert_eq!(t.content_flags.bits(), 0x1001);
    assert_eq!(parse_texture(&v[..71]), Err(ParseError::Incomplete));
    assert_eq!(parse_texture(&v[..10]), Err(ParseError::Incomplete));
}

#[test]
fn plane_and_node_records() {
    let mut v = Vec::new();
    for x in [0.0f32, 0.0, 1.0, 64.0] {
        v.extend_from_slice(&x.to_bits().to_le_bytes());
    }
    let (n, p) = parse_plane(&v).unwrap();
    assert_eq!(n, 16);
    assert_eq!(p.normal, [0, 0, 1.0f32.to_bits()]);
    assert_eq!(p.distance, 64.0f32.to_bits());

    let mut w = Vec::new();
    for x in [5, 1, -2, -10, -20, -30, 10, 20, 30] {
        w.extend_from_slice(&le(x));
    }
    let (n, node) = parse_raw_node(&w).unwrap();
    assert_eq!(n, 36);
    assert_eq!(node.plane, 5);
    assert_eq!(node.children, (1, -2));
    assert_eq!(node.min, [-10, -20, -30]);
    assert_eq!(node.max, [10, 20, 30]);
    assert_eq!(parse_raw_node(&w[..35]), Err(ParseError::Incomplete));
}

#[test]
fn leaf_record() {
    let mut v = Vec::new();
    for x in [3, 1, 0, 0, 0, 8, 8, 8, 4, 2, 6, 1] {
        v.extend_from_slice(&le(x));
    }
    let (n, l) = parse_raw_leaf(&v).unwrap();
    assert_eq!(n, 48);
    assert_eq!(l.visdata_cluster, 3);
    assert_eq!(l.areaportal_area, 1);
    assert_eq!(l.max, [8, 8, 8]);
    assert_eq!((l.first_leaf_face, l.num_leaf_faces), (4, 2));
    assert_eq!((l.first_leaf_brush, l.num_leaf_brushes), (6, 1));
}

#[test]
fn face_types() {
    assert_eq!(parse_face_type(&le(1)), Ok((4, FaceType::Polygon)));
    assert_eq!(parse_face_type(&le(2)), Ok((4, FaceType::Patch)));
    assert_eq!(parse_face_type(&le(3)), Ok((4, FaceType::Mesh)));
    assert_eq!(parse_face_type(&le(4)), Ok((4, FaceType::Billboard)));
    assert_eq!(parse_face_type(&le(0)), Err(ParseError::Error));
    assert_eq!(parse_face_type(&le(5)), Err(ParseError::Error));
    assert_eq!(parse_face_type(&[1, 0]), Err(ParseError::Incomplete));
}

#[test]
fn face_record() {
    let mut v = vec![0u8; 104];
    v[0..4].copy_from_slice(&le(2));
    v[4..8].copy_from_slice(&le(-1));
    v[8..12].copy_from_slice(&le(2));
    v[12..16].copy_from_slice(&le(10));
    v[16..20].copy_from_slice(&le(9));
    v[28..32].copy_from_slice(&le(-1));
    v[96..100].copy_from_slice(&le(3));
    v[100..104].copy_from_slice(&le(3));
    let (n, f) = parse_raw_face(&v).unwrap();
    assert_eq!(n, 104);
    assert_eq!(f.texture_index, 2);
    assert_eq!(f.effect_index, -1);
    assert_eq!(f.face_type, FaceType::Patch);
    assert_eq!(f.first_vertex, 10);
    assert_eq!(f.num_vertexes, 9);
    assert_eq!(f.lightmap_index, -1);
    assert_eq!(f.size, [3, 3]);
    v[8..12].copy_from_slice(&le(9));
    assert_eq!(parse_raw_face(&v), Err(ParseError::Error));
}

#[test]
fn lightmap_is_column_major() {
    let mut v = vec![0u8; 49152];
    // the triple for x = 1, y = 2 is stored at 3 * (1 * 128 + 2)
    let off = 3 * (128 + 2);
    v[off..off + 3].copy_from_slice(&[9, 8, 7]);
    let (n, l) = parse_lightmap(&v).unwrap();
    assert_eq!(n, 49152);
    assert_eq!(l.colors.len(), 128);
    assert_eq!(l.colors[2].len(), 128);
    assert_eq!(l.colors[2][1], [9, 8, 7]);
    assert_eq!(l.colors[1][2], [0, 0, 0]);
    assert_eq!(parse_lightmap(&v[..49151]), Err(ParseError::Incomplete));
}

#[test]
fn visibility_data_record() {
    let mut v = Vec::new();
    v.extend_from_slice(&le(2));
    v.extend_from_slice(&le(1));
    v.extend_from_slice(&[3, 4, 5]);
    let (n, d) = parse_visibility_data(&v).unwrap();
    assert_eq!(n, 10);
    assert_eq!(d.num_vectors, 2);
    assert_eq!(d.sizeof_vector, 1);
    assert_eq!(d.raw_bytes, vec![3, 4]);

    let mut big = Vec::new();
    big.extend_from_slice(&le(65536));
    big.extend_from_slice(&le(65536));
    assert_eq!(parse_visibility_data(&big), Err(ParseError::Error));

    let mut neg = Vec::new();
    neg.extend_from_slice(&le(-1));
    neg.extend_from_slice(&le(4));
    assert_eq!(parse_visibility_data(&neg), Err(ParseError::Incomplete));

    let mut short = Vec::new();
    short.extend_from_slice(&le(2));
    short.extend_from_slice(&le(2));
    short.push(1);
    assert_eq!(parse_visibility_data(&short), Err(ParseError::Incomplete));
}

#[test]
fn runs_of_records() {
    let bytes = [1, 0, 0, 0, 2, 0, 0, 0, 9];
    let (n, v) = parse_vec::<RawLeafFace>(&bytes, 2).unwrap();
    assert_eq!(n, 8);
    assert_eq!(v, vec![RawLeafFace { index: 1 }, RawLeafFace { index: 2 }]);
    assert_eq!(parse_vec::<RawLeafFace>(&bytes, 3), Err(ParseError::Incomplete));
    assert_eq!(parse_vec::<RawLeafFace>(&bytes, 0), Ok((0, vec![])));

    let (n, v) = consume_to_vec::<RawLeafFace>(&bytes[..8]).unwrap();
    assert_eq!(n, 8);
    assert_eq!(v.len(), 2);
    assert_eq!(consume_to_vec::<RawLeafFace>(&bytes), Err(ParseError::Incomplete));

    assert_eq!(many1::<RawLeafFace>(&bytes[..3]), Err(ParseError::Incomplete));
    assert_eq!(many1::<RawLeafFace>(&bytes[..4]), Ok((4, vec![RawLeafFace { index: 1 }])));
    assert_eq!(many1::<RawLeafFace>(&bytes), Err(ParseError::Incomplete));
}

#[test]
fn lumps_from_the_directory() {
    let mut file = vec![0u8; 4];
    file.extend_from_slice(&le(5));
    file.extend_from_slice(&le(6));
    file.extend_from_slice(&le(7));
    let e = DirectoryEntry { offset: 4, size: 12 };
    let (_, v) = get_from_header::<RawLeafFace>(&file, e, 4).unwrap();
    assert_eq!(v, vec![RawLeafFace { index: 5 }, RawLeafFace { index: 6 }, RawLeafFace { index: 7 }]);
    let e = DirectoryEntry { offset: 4, size: 11 };
    let (_, v) = get_from_header::<RawLeafFace>(&file, e, 4).unwrap();
    assert_eq!(v.len(), 2);
    let bad = DirectoryEntry { offset: 17, size: 0 };
    assert_eq!(get_from_header::<RawLeafFace>(&file, bad, 4), Err(ParseError::Error));
    let negative = DirectoryEntry { offset: 0, size: -4 };
    assert_eq!(get_from_header::<RawLeafFace>(&file, negative, 4), Err(ParseError::Error));

    let e = DirectoryEntry { offset: 8, size: 8 };
    let (_, v) = many1_from_header::<RawLeafFace>(&file, e).unwrap();
    assert_eq!(v, vec![RawLeafFace { index: 6 }, RawLeafFace { index: 7 }]);
    let past = DirectoryEntry { offset: 8, size: 9 };
    assert_eq!(many1_from_header::<RawLeafFace>(&file, past), Err(ParseError::Error));
}

fn header_bytes(entries: &[(i32, i32); 17]) -> Vec<u8> {
    let mut v = b"IBSP".to_vec();
    v.extend_from_slice(&le(0x2e));
    for (o, s) in entries.iter() {
        v.extend_from_slice(&le(*o));
        v.extend_from_slice(&le(*s));
    }
    v
}

#[test]
fn directory_header_and_entries() {
    let mut entries = [(0, 0); 17];
    entries[0] = (144, 10);
    entries[16] = (200, 30);
    let bytes = header_bytes(&entries);
    assert_eq!(bytes.len(), 144);
    let (n, h) = directory_header(&bytes).unwrap();
    assert_eq!(n, 144);
    assert_eq!(h.version, 0x2e);
    assert_eq!(h.entities, DirectoryEntry { offset: 144, size: 10 });
    assert_eq!(h.visibility_data, DirectoryEntry { offset: 200, size: 30 });
    assert_eq!(h.textures, DirectoryEntry { offset: 0, size: 0 });

    assert_eq!(directory_header(&bytes[..143]), Err(ParseError::Incomplete));
    assert_eq!(directory_header(b"IBS"), Err(ParseError::Incomplete));
    assert_eq!(directory_header(b""), Err(ParseError::Incomplete));
    assert_eq!(directory_header(b"XB"), Err(ParseError::Error));
    assert_eq!(directory_header(b"IBSX0000"), Err(ParseError::Error));

    assert_eq!(directory_entry(&bytes[8..16]), Ok((8, DirectoryEntry { offset: 144, size: 10 })));
    assert_eq!(directory_entry(&bytes[8..15]), Err(ParseError::Incomplete));
}

#[test]
fn entity_values_in_order_of_preference() {
    assert_eq!(parse_entity_value(b"*12\""), Ok((3, EntityValue::ModelRef(12))));
    assert_eq!(parse_entity_value(b"t3\""), Ok((2, EntityValue::TargetRef(3))));
    assert_eq!(parse_entity_value(b"1 2 3\""), Ok((5, EntityValue::IVec3([1, 2, 3]))));
    assert_eq!(parse_entity_value(b"1 -2 3 \""), Ok((7, EntityValue::IVec3([1, -2, 3]))));
    assert_eq!(
        parse_entity_value(b"1.5 2 3\""),
        Ok((7, EntityValue::Vec3([dec("1.5"), dec("2"), dec("3")])))
    );
    assert_eq!(parse_entity_value(b"4 5\""), Ok((3, EntityValue::IVec2([4, 5]))));
    assert_eq!(parse_entity_value(b"0.5 1.5\""), Ok((7, EntityValue::Vec2([dec("0.5"), dec("1.5")]))));
    assert_eq!(parse_entity_value(b"7\""), Ok((1, EntityValue::Int(7))));
    assert_eq!(parse_entity_value(b"0.25\""), Ok((1, EntityValue::Int(0))));
    assert_eq!(parse_entity_value(b"worldspawn\""), Ok((10, EntityValue::Text("worldspawn".to_string()))));
    assert_eq!(parse_entity_value(b"target2x\""), Ok((8, EntityValue::Text("target2x".to_string()))));
    assert_eq!(parse_entity_value(b"\""), Ok((0, EntityValue::Text(String::new()))));
    assert_eq!(parse_entity_value(b""), Err(ParseError::Incomplete));
    assert_eq!(parse_entity_value(b"no quote"), Err(ParseError::Error));
    assert_eq!(parse_entity_value(b"12"), Err(ParseError::Incomplete));
}

#[test]
fn one_parameter() {
    let (n, (name, value)) = parse_param(b"\"origin\" \"1 2 3\"\n}").unwrap();
    assert_eq!(n, 17);
    assert_eq!(name, "origin");
    assert_eq!(value, EntityValue::IVec3([1, 2, 3]));
    assert_eq!(parse_param(b"}").map(|(n, _)| n), Err(ParseError::Error));
    assert_eq!(parse_param(b"\"origin").map(|(n, _)| n), Err(ParseError::Error));
    assert_eq!(parse_param(b"\"origin\" \"0.5\"").map(|(n, _)| n), Err(ParseError::Error));
}

#[test]
fn whole_entity() {
    let text = b" {\n\"classname\" \"worldspawn\"\n\"model\" \"*4\"\n\"origin\" \"1 2 3\"\n}\n";
    let (n, e) = parse_entity(text).unwrap();
    assert_eq!(n, text.len() - 1);
    assert_eq!(e.parameters.len(), 3);
    assert_eq!(e.parameters[0], ("classname".to_string(), EntityValue::Text("worldspawn".to_string())));
    assert_eq!(e.parameters[1], ("model".to_string(), EntityValue::ModelRef(4)));
    assert_eq!(e.parameters[2], ("origin".to_string(), EntityValue::IVec3([1, 2, 3])));

    let (n, e) = parse_entity(b"{}").unwrap();
    assert_eq!(n, 2);
    assert!(e.parameters.is_empty());
    assert_eq!(parse_entity(b"x{}").map(|(n, _)| n), Err(ParseError::Error));
    assert_eq!(parse_entity(b"{\"a\" \"b\"").map(|(n, _)| n), Err(ParseError::Incomplete));
    assert_eq!(parse_entity(b"  ").map(|(n, _)| n), Err(ParseError::Incomplete));
}

fn small_file() -> Vec<u8> {
    let mut entries = [(144, 0); 17];
    entries[0] = (144, 2);
    entries[16] = (146, 8);
    let mut file = header_bytes(&entries);
    file.extend_from_slice(b"{}");
    file.extend_from_slice(&le(0));
    file.extend_from_slice(&le(0));
    file
}

#[test]
fn smallest_level_file() {
    let file = small_file();
    let (n, raw) = parse_raw_bsp(&file).unwrap();
    assert_eq!(n, file.len());
    assert_eq!(raw.entities.len(), 1);
    assert!(raw.entities[0].parameters.is_empty());
    assert!(raw.textures.is_empty());
    assert!(raw.nodes.is_empty());
    assert_eq!(raw.visibility_data.len(), 1);
    assert_eq!(raw.visibility_data[0].num_vectors, 0);
    assert_eq!(raw.header.entities, DirectoryEntry { offset: 144, size: 2 });
}

#[test]
fn bad_level_files_fail_without_panicking() {
    assert_eq!(parse_raw_bsp(b"").map(|(n, _)| n), Err(ParseError::Incomplete));
    assert_eq!(parse_raw_bsp(b"RBSP").map(|(n, _)| n), Err(ParseError::Error));
    let mut file = small_file();
    file[0] = b'X';
    assert_eq!(parse_raw_bsp(&file).map(|(n, _)| n), Err(ParseError::Error));
    let mut file = small_file();
    // the texture lump now starts past the end of the file
    file[16..20].copy_from_slice(&le(1000));
    assert_eq!(parse_raw_bsp(&file).map(|(n, _)| n), Err(ParseError::Error));
    let mut file = small_file();
    // the texture lump claims one record that is not there
    file[20..24].copy_from_slice(&le(72));
    assert_eq!(parse_raw_bsp(&file).map(|(n, _)| n), Err(ParseError::Incomplete));
    let mut file = small_file();
    // the entity lump is not text in braces
    file[144] = b'x';
    assert_eq!(parse_raw_bsp(&file).map(|(n, _)| n), Err(ParseError::Error));
    let short = small_file();
    assert_eq!(parse_raw_bsp(&short[..150]).map(|(n, _)| n), Err(ParseError::Error));
}
