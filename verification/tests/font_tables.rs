use std::marker::PhantomData;

use toy_ttf::font::{Font, GetTable};
use toy_ttf::parse::primitives::Fixed;
use toy_ttf::parse::DynArr;
use toy_ttf::font::ReadFontError;
use toy_ttf::parse::BufView;
use toy_ttf::tables::cmap::{CMap, CMapEncodingRecord};
use toy_ttf::tables::glyf::Description;
use toy_ttf::tables::loca::S;
use toy_ttf::tables::glyf::{Coordinate, Coordinates, Glyf};
use toy_ttf::tables::head::{Head, IndexToLocFormat};
use toy_ttf::tables::loca::Loca;
use toy_ttf::math::Point;
use toy_ttf::render::{DrawCommand, DrawCommands};
use toy_ttf::tables::maxp::{MaxP, MaxPV1Ext};

fn push16(buf: &mut Vec<u8>, v: u16) {
    buf.extend_from_slice(&[(v >> 8) as u8, v as u8]);
}

fn push32(buf: &mut Vec<u8>, v: u32) {
    buf.extend_from_slice(&[(v >> 24) as u8, (v >> 16) as u8, (v >> 8) as u8, v as u8]);
}

fn push64(buf: &mut Vec<u8>, v: u64) {
    push32(buf, (v >> 32) as u32);
    push32(buf, v as u32);
}

fn push_i16(buf: &mut Vec<u8>, v: i16) {
    push16(buf, v as u16);
}

struct TableSpec {
    tag: [u8; 4],
    offset: u32,
    data: Vec<u8>,
}

/// Assemble a whole font file: offset subtable, directory, then each
/// table at its declared offset.
fn assemble(tables: Vec<TableSpec>) -> Vec<u8> {
    let mut buf = Vec::new();
    push32(&mut buf, 0x00010000); // scaler type
    push16(&mut buf, tables.len() as u16);
    push16(&mut buf, 0); // search_range
    push16(&mut buf, 0); // entry_selector
    push16(&mut buf, 0); // range_shift
    for t in &tables {
        buf.extend_from_slice(&t.tag);
        push32(&mut buf, 0); // checksum
        push32(&mut buf, t.offset);
        push32(&mut buf, t.data.len() as u32);
    }
    for t in &tables {
        if buf.len() < t.offset as usize {
            buf.resize(t.offset as usize, 0);
        }
        assert!(buf.len() <= t.offset as usize, "table offsets must ascend");
        buf.extend_from_slice(&t.data);
    }
    buf
}

fn head_table() -> Vec<u8> {
    let mut t = Vec::new();
    push16(&mut t, 1); // major
    push16(&mut t, 0); // minor
    push_i16(&mut t, 0x2); // revision, integral half
    push_i16(&mut t, 0x5eb8); // revision, fractional half
    push32(&mut t, 400577649); // checksum adjustment
    push32(&mut t, 1594834165); // magic
    push16(&mut t, 31); // flags
    push16(&mut t, 2048); // units per em
    push64(&mut t, 3552717816); // created
    push64(&mut t, 3552717816); // modified
    push_i16(&mut t, -1142); // x min
    push_i16(&mut t, -767); // y min
    push_i16(&mut t, 1470); // x max
    push_i16(&mut t, 2105); // y max
    push16(&mut t, 0); // mac style
    push16(&mut t, 8); // lowest recommended pixels per em
    push_i16(&mut t, 0); // direction hint
    push_i16(&mut t, 1); // long location format
    push_i16(&mut t, 0); // glyph data format
    t
}

fn maxp_table() -> Vec<u8> {
    let mut t = Vec::new();
    push_i16(&mut t, 1); // version 1.0
    push_i16(&mut t, 0);
    push16(&mut t, 3377); // glyph count
    for v in [524u16, 43, 107, 6, 2, 16, 153, 8, 0, 1367, 273, 5, 4] {
        push16(&mut t, v);
    }
    t
}

/// The points of the synthetic outline the tests render: the shape of a
/// letter with two bowls, one closed contour of forty points.
fn s_points() -> Vec<(bool, i16, i16)> {
    vec![
        (true, 1012, 1442),
        (true, 1012, 1237),
        (false, 920, 1296),
        (false, 735, 1356),
        (true, 641, 1356),
        (false, 498, 1356),
        (false, 332, 1223),
        (true, 332, 1110),
        (false, 332, 1011),
        (false, 441, 907),
        (true, 590, 872),
        (true, 696, 848),
        (false, 906, 799),
        (false, 1098, 589),
        (true, 1098, 408),
        (false, 1098, 195),
        (false, 834, -29),
        (true, 582, -29),
        (false, 477, -29),
        (false, 265, 16),
        (true, 158, 61),
        (true, 158, 276),
        (false, 273, 203),
        (false, 478, 135),
        (true, 582, 135),
        (false, 735, 135),
        (false, 905, 272),
        (true, 905, 395),
        (false, 905, 507),
        (false, 788, 625),
        (true, 643, 657),
        (true, 535, 682),
        (false, 327, 729),
        (false, 139, 919),
        (true, 139, 1079),
        (false, 139, 1279),
        (false, 408, 1520),
        (true, 631, 1520),
        (false, 717, 1520),
        (false, 907, 1481),
    ]
}

/// Encode a one-contour simple glyph: every point gets its own flag and
/// two-byte deltas.
fn encode_simple_glyph(points: &[(bool, i16, i16)]) -> Vec<u8> {
    let xs: Vec<i16> = points.iter().map(|p| p.1).collect();
    let ys: Vec<i16> = points.iter().map(|p| p.2).collect();
    let x_min = *xs.iter().min().unwrap();
    let x_max = *xs.iter().max().unwrap();
    let y_min = *ys.iter().min().unwrap();
    let y_max = *ys.iter().max().unwrap();
    let mut g = Vec::new();
    push_i16(&mut g, 1); // one contour
    push_i16(&mut g, x_min);
    push_i16(&mut g, y_min);
    push_i16(&mut g, x_max);
    push_i16(&mut g, y_max);
    push16(&mut g, points.len() as u16 - 1); // last point index
    push16(&mut g, 0); // no instructions
    for p in points {
        g.push(if p.0 { 0x01 } else { 0x00 });
    }
    let mut prev = 0i16;
    for &x in &xs {
        push_i16(&mut g, x.wrapping_sub(prev));
        prev = x;
    }
    prev = 0;
    for &y in &ys {
        push_i16(&mut g, y.wrapping_sub(prev));
        prev = y;
    }
    g
}

/// The glyph id the character map gives the rendered letter.
const S_GLYPH: u16 = 54;

fn cmap_table() -> Vec<u8> {
    let mut t = Vec::new();
    push16(&mut t, 0); // version
    push16(&mut t, 5); // record count
    for (pid, psid, off) in [(0u16, 3u16, 44u32), (0, 10, 2100), (1, 0, 5188), (3, 1, 44), (3, 10, 2100)] {
        push16(&mut t, pid);
        push16(&mut t, psid);
        push32(&mut t, off);
    }
    t.resize(44, 0);
    // A segmented subtable of 255 segments at offset 44.
    let seg = 255u16;
    push16(&mut t, 4); // format
    push16(&mut t, 2056); // length
    push16(&mut t, 0); // language
    push16(&mut t, seg * 2);
    push16(&mut t, 256); // search range
    push16(&mut t, 7); // entry selector
    push16(&mut t, 254); // range shift
    let mut ends = vec![0xFFFFu16; seg as usize];
    let mut starts = vec![0xFFFFu16; seg as usize];
    let mut deltas = vec![1i16; seg as usize];
    let ros = vec![0u16; seg as usize];
    ends[0] = 90;
    starts[0] = 65;
    deltas[0] = -29;
    ends[1] = 122;
    starts[1] = 97;
    deltas[1] = -29;
    for e in &ends {
        push16(&mut t, *e);
    }
    push16(&mut t, 0); // reserved padding
    for s in &starts {
        push16(&mut t, *s);
    }
    for d in &deltas {
        push_i16(&mut t, *d);
    }
    for r in &ros {
        push16(&mut t, *r);
    }
    // The glyph id array runs to the end of the table.
    t.resize(44 + 2056 + 321944, 0);
    t
}

fn loca_table(glyph_len: u32) -> Vec<u8> {
    let mut t = Vec::new();
    for i in 0..60u32 {
        push32(&mut t, if i <= S_GLYPH as u32 { 0 } else { glyph_len });
    }
    t
}

fn font_buf() -> Vec<u8> {
    let glyph = encode_simple_glyph(&s_points());
    let glyph_len = glyph.len() as u32;
    assemble(vec![
        TableSpec { tag: *b"head", offset: 100, data: head_table() },
        TableSpec { tag: *b"maxp", offset: 160, data: maxp_table() },
        TableSpec { tag: *b"loca", offset: 200, data: loca_table(glyph_len) },
        TableSpec { tag: *b"glyf", offset: 600, data: glyph },
        TableSpec { tag: *b"cmap", offset: 1000, data: cmap_table() },
    ])
}

/// A second font whose character map carries an accented-letter segment.
fn accented_font_buf() -> Vec<u8> {
    let mut t = Vec::new();
    push16(&mut t, 0);
    push16(&mut t, 1);
    push16(&mut t, 3);
    push16(&mut t, 1);
    push32(&mut t, 12);
    // format 4, one segment covering code points 64..255
    push16(&mut t, 4);
    push16(&mut t, 24);
    push16(&mut t, 0);
    push16(&mut t, 2);
    push16(&mut t, 2);
    push16(&mut t, 0);
    push16(&mut t, 0);
    push16(&mut t, 255); // end
    push16(&mut t, 0); // reserved
    push16(&mut t, 64); // start
    push_i16(&mut t, 447); // delta
    push16(&mut t, 0); // range offset
    assemble(vec![TableSpec { tag: *b"cmap", offset: 100, data: t }])
}

#[test]
fn head() {
    let buf = font_buf();
    let font = Font::from_buffer(&buf).unwrap();
    let head: Head = font.get_table().unwrap();
    let expected = Head {
        major_version: 1,
        minor_version: 0,
        font_revision: Fixed(0x2, 0x5eb8),
        check_sum_adjustment: 400577649,
        magic_number: 1594834165,
        flags: 31,
        units_per_em: 2048,
        created: 3552717816,
        modified: 3552717816,
        x_min: -1142,
        y_min: -767,
        x_max: 1470,
        y_max: 2105,
        mac_style: 0,
        lowest_recPPEM: 8,
        font_direction_hint: 0,
        index_to_loc_format: IndexToLocFormat::Long,
        glyph_data_format: 0,
    };
    assert_eq!(head, expected);
}

#[test]
fn maxp() {
    let buf = font_buf();
    let font = Font::from_buffer(&buf).unwrap();
    let maxp: MaxP = font.get_table().unwrap();

    assert_eq!(maxp.version, Fixed(1, 0));
    assert_eq!(maxp.num_glyphs, 3377);

    let expect_v1_ext = MaxPV1Ext {
        max_points: 524,
        max_contours: 43,
        max_composite_points: 107,
        max_composite_contours: 6,
        max_zones: 2,
        max_twilight_points: 16,
        max_storage: 153,
        max_function_defs: 8,
        max_instruction_defs: 0,
        max_stack_elements: 1367,
        max_size_Of_instructions: 273,
        max_component_elements: 5,
        max_component_depth: 4,
    };

    assert_eq!(maxp.version_1_ext(), Some(expect_v1_ext));
}

#[test]
fn cmap_primary() {
    let buf = font_buf();
    let font = Font::from_buffer(&buf).unwrap();
    let cmap: CMap = font.get_table().unwrap();

    assert_eq!(cmap.version, 0);
    assert_eq!(cmap.num_records, 5);
}

#[test]
fn cmap_records() {
    let buf = font_buf();
    let font = Font::from_buffer(&buf).unwrap();
    let cmap: CMap = font.get_table().unwrap();

    let expecteds = &[
        CMapEncodingRecord { platform_id: 0, platform_specific_id: 3, offset: 44 },
        CMapEncodingRecord { platform_id: 0, platform_specific_id: 10, offset: 2100 },
        CMapEncodingRecord { platform_id: 1, platform_specific_id: 0, offset: 5188 },
        CMapEncodingRecord { platform_id: 3, platform_specific_id: 1, offset: 44 },
        CMapEncodingRecord { platform_id: 3, platform_specific_id: 10, offset: 2100 },
    ];

    let mut records = cmap.encoding_records();
    for expected in expecteds {
        let actual = records.next().unwrap();
        assert_eq!(&actual, expected);
    }
}

#[test]
fn cmap_format4() {
    let buf = font_buf();
    let font = Font::from_buffer(&buf).unwrap();
    let cmap: CMap = font.get_table().unwrap();
    let f4 = cmap.format4().unwrap();

    assert_eq!(f4.format, 4);
    assert_eq!(f4.length, 2056);
    assert_eq!(f4.language, 0);
    assert_eq!(f4.seg_count, 255);
    assert_eq!(f4.search_range, 256);
    assert_eq!(f4.entry_selector, 7);
    assert_eq!(f4.range_shift, 254);
    assert_eq!(f4.end_counts.0.len(), 510);
    assert_eq!(f4.reserved_padding, 0);
    assert_eq!(f4.start_counts.0.len(), 510);
    assert_eq!(f4.id_deltas.0.len(), 510);
    assert_eq!(f4.id_range_offsets.0.len(), 510);
    assert_eq!(f4.glyph_ids.0.len(), 321944);
}

#[test]
fn glyph_id_simple() {
    let buf = font_buf();
    let font = Font::from_buffer(&buf).unwrap();
    let cmap: CMap = font.get_table().unwrap();
    let f4 = cmap.format4().unwrap();

    let expecteds: &[u16] = &[36, 68, 70];
    let code_points: &[u16] = &[65, 97, 99];
    for (&code_point, &expected) in code_points.iter().zip(expecteds) {
        let glyph_id = f4.lookup_glyph_id(code_point).unwrap();
        assert_eq!(glyph_id, expected);
    }
}

#[test]
fn glyph_id_fancy() {
    let buf = accented_font_buf();
    let font = Font::from_buffer(&buf).unwrap();
    let cmap: CMap = font.get_table().unwrap();
    let f4 = cmap.format4().unwrap();

    let glyph_id = f4.lookup_glyph_id(192).unwrap();
    assert_eq!(glyph_id, 639);
}

#[test]
fn glyph_id_below_segment_start() {
    let buf = font_buf();
    let font = Font::from_buffer(&buf).unwrap();
    let cmap: CMap = font.get_table().unwrap();
    let f4 = cmap.format4().unwrap();

    // Code point 60 reaches the first segment (end 90) but lies below its
    // start 65: no mapping.
    assert_eq!(f4.lookup_glyph_id(60), None);
}

#[test]
fn simple_coordinates() {
    let expecteds: Vec<Coordinate> = s_points()
        .iter()
        .map(|&(on_curve, x, y)| Coordinate { on_curve, x, y })
        .collect();

    let buf = font_buf();
    let font = Font::from_buffer(&buf).unwrap();

    let cmap: CMap = font.get_table().unwrap();
    let format4 = cmap.format4().unwrap();
    let glyph_id = format4.lookup_glyph_id(b'S' as u16).unwrap();
    assert_eq!(glyph_id, S_GLYPH);

    let loca: Loca = font.get_table().unwrap();
    let glyph_offset = loca.at(glyph_id as usize).unwrap();

    let glyf: Glyf = font.get_table().unwrap();
    let glyph = glyf.at_offset(glyph_offset as usize).unwrap();
    let mut walker: Coordinates = glyph.coordinates();
    for expected in &expecteds {
        let actual = walker.next().unwrap();
        assert_eq!(&actual, expected);
    }
    assert_eq!(walker.next(), None);
}

#[test]
fn composite_contour_count() {
    // A glyph whose contour count is -1 decodes as a composite
    // description; a positive count decodes as a simple one.
    let mut g = Vec::new();
    push_i16(&mut g, -1);
    push_i16(&mut g, 0);
    push_i16(&mut g, 0);
    push_i16(&mut g, 100);
    push_i16(&mut g, 100);
    push16(&mut g, 0); // component bytes, unread here
    let glyf = Glyf(BufView(&g, PhantomData));
    let glyph = glyf.at_offset(0).unwrap();
    assert!(matches!(glyph.desc, Description::Composite(_)));

    let simple = encode_simple_glyph(&s_points());
    let glyf = Glyf(BufView(&simple, PhantomData));
    let glyph = glyf.at_offset(0).unwrap();
    assert!(matches!(glyph.desc, Description::Simple(_)));
}

#[test]
fn loca_hole_detection() {
    // An entry equal to its successor marks a glyph with no outline.
    // Short entries store half the byte offset: stored 10 reads as 20.
    let bytes: Vec<u8> = vec![0, 0, 0, 10, 0, 10, 0, 20];
    let loca = Loca::Short(S(DynArr(&bytes, PhantomData)));
    assert_eq!(loca.at(0), Some(0));
    assert_eq!(loca.at(1), None);
    assert_eq!(loca.at(2), Some(20));
}

#[test]
fn font_rejects_non_font() {
    let buf = vec![1u8, 2, 3, 4, 5, 6, 7, 8, 9, 10, 11, 12];
    assert_eq!(Font::from_buffer(&buf).err(), Some(ReadFontError::NotAFont));
}

#[test]
fn full_plane_lookup() {
    // A sequential-group subtable maps characters beyond the basic plane.
    let mut t = Vec::new();
    push16(&mut t, 0);
    push16(&mut t, 1);
    push16(&mut t, 3);
    push16(&mut t, 10);
    push32(&mut t, 12);
    push16(&mut t, 12); // format
    push16(&mut t, 0); // reserved
    push32(&mut t, 16 + 12); // length
    push32(&mut t, 0); // language
    push32(&mut t, 1); // one group
    push32(&mut t, 0x1d400);
    push32(&mut t, 0x1d433);
    push32(&mut t, 500);
    let buf = assemble(vec![TableSpec { tag: *b"cmap", offset: 100, data: t }]);
    let font = Font::from_buffer(&buf).unwrap();
    let c = char::from_u32(0x1d41a).unwrap();
    assert_eq!(font.get_glyph_id(c), Some(500 + 0x1a));
}

fn pt(x: i32, y: i32) -> Point {
    Point { x, y }
}

#[test]
fn letter_draw_commands() {
    // Rendering the test letter's outline gives a fixed, reproducible
    // sequence of drawing steps.  Positions are in half units: twice the
    // design-space coordinates, so every implied midpoint is exact.
    let buf = font_buf();
    let font = Font::from_buffer(&buf).unwrap();
    let glyph = font.get_glyph('S').unwrap();
    let mut walker = glyph.coordinates();
    let mut coords = Vec::new();
    while let Some(c) = walker.next() {
        coords.push(c);
    }
    let dcs = DrawCommands::from_coordinates(&coords);
    let expecteds = vec![
        DrawCommand::Line(pt(2024, 2884), pt(2024, 2474)),
        DrawCommand::Curve(pt(2024, 2474), pt(1840, 2592), pt(1655, 2652)),
        DrawCommand::Curve(pt(1655, 2652), pt(1470, 2712), pt(1282, 2712)),
        DrawCommand::Curve(pt(1282, 2712), pt(996, 2712), pt(830, 2579)),
        DrawCommand::Curve(pt(830, 2579), pt(664, 2446), pt(664, 2220)),
        DrawCommand::Curve(pt(664, 2220), pt(664, 2022), pt(773, 1918)),
        DrawCommand::Curve(pt(773, 1918), pt(882, 1814), pt(1180, 1744)),
        DrawCommand::Line(pt(1180, 1744), pt(1392, 1696)),
        DrawCommand::Curve(pt(1392, 1696), pt(1812, 1598), pt(2004, 1388)),
        DrawCommand::Curve(pt(2004, 1388), pt(2196, 1178), pt(2196, 816)),
        DrawCommand::Curve(pt(2196, 816), pt(2196, 390), pt(1932, 166)),
        DrawCommand::Curve(pt(1932, 166), pt(1668, -58), pt(1164, -58)),
        DrawCommand::Curve(pt(1164, -58), pt(954, -58), pt(742, -13)),
        DrawCommand::Curve(pt(742, -13), pt(530, 32), pt(316, 122)),
        DrawCommand::Line(pt(316, 122), pt(316, 552)),
        DrawCommand::Curve(pt(316, 552), pt(546, 406), pt(751, 338)),
        DrawCommand::Curve(pt(751, 338), pt(956, 270), pt(1164, 270)),
        DrawCommand::Curve(pt(1164, 270), pt(1470, 270), pt(1640, 407)),
        DrawCommand::Curve(pt(1640, 407), pt(1810, 544), pt(1810, 790)),
        DrawCommand::Curve(pt(1810, 790), pt(1810, 1014), pt(1693, 1132)),
        DrawCommand::Curve(pt(1693, 1132), pt(1576, 1250), pt(1286, 1314)),
        DrawCommand::Line(pt(1286, 1314), pt(1070, 1364)),
        DrawCommand::Curve(pt(1070, 1364), pt(654, 1458), pt(466, 1648)),
        DrawCommand::Curve(pt(466, 1648), pt(278, 1838), pt(278, 2158)),
        DrawCommand::Curve(pt(278, 2158), pt(278, 2558), pt(547, 2799)),
        DrawCommand::Curve(pt(547, 2799), pt(816, 3040), pt(1262, 3040)),
        DrawCommand::Curve(pt(1262, 3040), pt(1434, 3040), pt(1624, 3001)),
        DrawCommand::Curve(pt(1624, 3001), pt(1814, 2962), pt(2024, 2884)),
    ];
    assert_eq!(dcs.commands, expecteds);
}

#[test]
fn render_letter_bitmap() {
    // Rasterize the test letter: the bitmap covers its bounding box at
    // the requested size, carries ink somewhere, and stays background in
    // its corners.
    let buf = font_buf();
    let font = Font::from_buffer(&buf).unwrap();
    let glyph = font.get_glyph('S').unwrap();
    let bmp = font.render_glyph(&glyph, 64).unwrap();
    // box 959 x 1549 design units at 64 pixels per 2048 units
    assert_eq!(bmp.width, 30);
    assert_eq!(bmp.height, 49);
    let mut ink = 0usize;
    for y in 0..bmp.height {
        for x in 0..bmp.width {
            if bmp.at(x, y) == 0x00 {
                ink += 1;
            } else {
                assert_eq!(bmp.at(x, y), 0xFF);
            }
        }
    }
    assert!(ink > 0);
    assert_eq!(bmp.at(0, 0), 0xFF);
    assert_eq!(bmp.at(29, 48), 0xFF);
}

#[test]
fn table_dir_record_iteration() {
    let buf = font_buf();
    let font = Font::from_buffer(&buf).unwrap();

    let mut records = font.font_dir.table_records();
    let mut num_iter_results = 0usize;
    while records.next().is_some() {
        num_iter_results += 1;
    }
    assert_eq!(num_iter_results, font.font_dir.offsets.num_tables as usize);
}

#[test]
fn repeat_and_short_vectors() {
    // A glyph whose stream uses a repeat run and one-byte deltas with
    // explicit signs, alongside zero deltas.
    let mut g = Vec::new();
    push_i16(&mut g, 1); // one contour
    push_i16(&mut g, 5); // x min
    push_i16(&mut g, 0); // y min
    push_i16(&mut g, 15); // x max
    push_i16(&mut g, 15); // y max
    push16(&mut g, 4); // last point index: five points
    push16(&mut g, 0); // no instructions
    g.push(0x33); // on, x short positive, y same
    g.push(0x37 | 0x08); // on, x and y short positive, repeated
    g.push(0x01); // one extra use
    g.push(0x27); // on, x short negative, y short positive
    g.push(0x07); // on, x and y short negative
    g.extend_from_slice(&[5, 5, 5, 5, 5]); // x deltas
    g.extend_from_slice(&[5, 5, 5, 5]); // y deltas, none for the first point
    let glyf = Glyf(BufView(&g, PhantomData));
    let glyph = glyf.at_offset(0).unwrap();
    assert!(glyph.validate());
    let mut walker = glyph.coordinates();
    let expecteds = [
        Coordinate { on_curve: true, x: 5, y: 0 },
        Coordinate { on_curve: true, x: 10, y: 5 },
        Coordinate { on_curve: true, x: 15, y: 10 },
        Coordinate { on_curve: true, x: 10, y: 15 },
        Coordinate { on_curve: true, x: 5, y: 10 },
    ];
    for expected in &expecteds {
        assert_eq!(walker.next().as_ref(), Some(expected));
    }
    assert_eq!(walker.next(), None);
}

#[test]
fn truncated_stream_rejected() {
    // The same glyph with its last delta byte missing does not validate.
    let mut g = Vec::new();
    push_i16(&mut g, 1);
    push_i16(&mut g, 5);
    push_i16(&mut g, 0);
    push_i16(&mut g, 15);
    push_i16(&mut g, 15);
    push16(&mut g, 4);
    push16(&mut g, 0);
    g.push(0x33);
    g.push(0x37 | 0x08);
    g.push(0x01);
    g.push(0x27);
    g.push(0x07);
    g.extend_from_slice(&[5, 5, 5, 5, 5]);
    g.extend_from_slice(&[5, 5, 5]); // one y delta short
    let glyf = Glyf(BufView(&g, PhantomData));
    let glyph = glyf.at_offset(0).unwrap();
    assert!(!glyph.validate());
}

/// The glyph id of the composite that places the test letter unchanged.
const COMPOSITE_GLYPH: u16 = 55;

fn composite_record() -> Vec<u8> {
    let pts = s_points();
    let mut g = Vec::new();
    push_i16(&mut g, -1); // composite
    push_i16(&mut g, *pts.iter().map(|p| &p.1).min().unwrap());
    push_i16(&mut g, *pts.iter().map(|p| &p.2).min().unwrap());
    push_i16(&mut g, *pts.iter().map(|p| &p.1).max().unwrap());
    push_i16(&mut g, *pts.iter().map(|p| &p.2).max().unwrap());
    push16(&mut g, 0x0003); // word-sized x/y arguments, last record
    push16(&mut g, S_GLYPH);
    push_i16(&mut g, 0); // x offset
    push_i16(&mut g, 0); // y offset
    g
}

#[test]
fn composite_renders_as_component() {
    // A composite glyph holding one untransformed component renders to
    // the same bitmap as the component itself.
    let simple = encode_simple_glyph(&s_points());
    let comp = composite_record();
    let mut glyf_data = simple.clone();
    glyf_data.extend_from_slice(&comp);
    let mut loca = Vec::new();
    for i in 0..60u32 {
        let off = if i <= S_GLYPH as u32 {
            0
        } else if i == COMPOSITE_GLYPH as u32 {
            simple.len() as u32
        } else {
            glyf_data.len() as u32
        };
        push32(&mut loca, off);
    }
    let buf = assemble(vec![
        TableSpec { tag: *b"head", offset: 100, data: head_table() },
        TableSpec { tag: *b"maxp", offset: 160, data: maxp_table() },
        TableSpec { tag: *b"loca", offset: 200, data: loca },
        TableSpec { tag: *b"glyf", offset: 600, data: glyf_data },
        TableSpec { tag: *b"cmap", offset: 2000, data: cmap_table() },
    ]);
    let font = Font::from_buffer(&buf).unwrap();
    let base = font.get_glyph_for_id(S_GLYPH as u32).unwrap();
    let composite = font.get_glyph_for_id(COMPOSITE_GLYPH as u32).unwrap();
    assert!(matches!(composite.desc, Description::Composite(_)));
    let bmp_base = font.render_glyph(&base, 64).unwrap();
    let bmp_comp = font.render_glyph(&composite, 64).unwrap();
    assert_eq!(bmp_base.width, bmp_comp.width);
    assert_eq!(bmp_base.height, bmp_comp.height);
    for y in 0..bmp_base.height {
        for x in 0..bmp_base.width {
            assert_eq!(bmp_base.at(x, y), bmp_comp.at(x, y), "pixel ({}, {})", x, y);
        }
    }
}
