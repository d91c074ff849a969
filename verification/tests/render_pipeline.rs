use toy_ttf::math::{LineSegment, Matrix, Point};
use toy_ttf::tables::cmap::{CMapFormatTable, Format4};
use toy_ttf::render::{CurveLines, DrawCommand, DrawCommands, FillInRaster, FlattenedDrawCommands};
use toy_ttf::tables::cmap::SequentialMapGroup;
use std::marker::PhantomData;
use toy_ttf::parse::BufView;
use toy_ttf::tables::glyf::{
    Coordinate, CompositeCoordinates, Glyf, ARGS_ARE_XY_VALUES, ARG_1_AND_2_ARE_WORDS,
    WE_HAVE_AN_X_AND_Y_SCALE,
};
use toy_ttf::tables::hmtx::{HorizMetric, HMTX};

fn pt(x: i32, y: i32) -> Point {
    Point { x, y }
}

#[test]
fn draw_commands() {
    // Positions are held doubled, so the implied on-curve midpoints of
    // consecutive off-curve points are exact.  The contour closes back to
    // its first point.
    let coords = [
        Coordinate { on_curve: true, x: 1012, y: 1442 },
        Coordinate { on_curve: true, x: 1012, y: 1237 },
        Coordinate { on_curve: false, x: 920, y: 1296 },
        Coordinate { on_curve: false, x: 735, y: 1356 },
        Coordinate { on_curve: true, x: 641, y: 1356 },
    ];
    let dcs = DrawCommands::from_coordinates(&coords);
    let expected = vec![
        DrawCommand::Line(pt(2024, 2884), pt(2024, 2474)),
        DrawCommand::Curve(pt(2024, 2474), pt(1840, 2592), pt(1655, 2652)),
        DrawCommand::Curve(pt(1655, 2652), pt(1470, 2712), pt(1282, 2712)),
        DrawCommand::Line(pt(1282, 2712), pt(2024, 2884)),
    ];
    assert_eq!(dcs.commands, expected);
}

#[test]
fn curve_iterator() {
    // Flattening a quadratic curve yields a chain of segments whose last
    // endpoint is exactly the curve's endpoint.
    let start = pt(0, 0);
    let off = pt(0, 4);
    let end = pt(8, 8);
    let curve = CurveLines::new(start, off, end);
    let n = curve.segments.len();
    // legs of 2 and sqrt(20) design units: ceil of their sum, plus two
    assert_eq!(n, 9);
    assert_eq!(curve.segments[0].0, start);
    assert_eq!(curve.segments[n - 1].1, end);
    for i in 0..n - 1 {
        assert_eq!(curve.segments[i].1, curve.segments[i + 1].0);
    }
}

#[test]
fn flattened_straight_lines() {
    // A contour of on-curve points flattens to its own edges plus the
    // closing edge.
    let coords = [
        Coordinate { on_curve: true, x: 0, y: 0 },
        Coordinate { on_curve: true, x: 10, y: 0 },
        Coordinate { on_curve: true, x: 10, y: 10 },
    ];
    let fdc = FlattenedDrawCommands::from_coordinates(&coords);
    let expected = vec![
        (pt(0, 0), pt(20, 0)),
        (pt(20, 0), pt(20, 20)),
        (pt(20, 20), pt(0, 0)),
    ];
    assert_eq!(fdc.segments, expected);
}

#[test]
fn winding_fill_convex() {
    // A convex quadrilateral with consistent winding: interior pixels
    // accumulate a nonzero count and are inked, exterior ones stay at
    // zero and stay background.  Coordinates are half pixels: the box
    // runs from 0.5 to 3.5 pixels in each direction.
    let mut raster = FillInRaster::new(5, 4);
    raster.add_line(pt(1, 1), pt(1, 7)); // left edge, upward
    raster.add_line(pt(1, 7), pt(7, 7)); // top edge, dropped as horizontal
    raster.add_line(pt(7, 7), pt(7, 1)); // right edge, downward
    raster.add_line(pt(7, 1), pt(1, 1)); // bottom edge, dropped
    let bmp = raster.into_bitmap();
    for y in 0..4usize {
        for x in 0..5usize {
            let interior = (1..4).contains(&x);
            let expected = if interior { 0x00 } else { 0xFF };
            assert_eq!(bmp.at(x, y), expected, "pixel ({}, {})", x, y);
        }
    }
}

#[test]
fn winding_fill_empty() {
    let raster = FillInRaster::new(3, 3);
    let bmp = raster.into_bitmap();
    for y in 0..3usize {
        for x in 0..3usize {
            assert_eq!(bmp.at(x, y), 0xFF);
        }
    }
}

#[test]
fn horiz_line_intersection() {
    let ls = LineSegment(pt(-2, -2), pt(2, 2));
    assert_eq!(ls.horiz_line_intersects(0), Some(0));
    assert_eq!(ls.horiz_line_intersects(2), Some(2));
    assert_eq!(ls.horiz_line_intersects(-2), Some(-2));
    assert_eq!(ls.horiz_line_intersects(3), None);
    let horizontal = LineSegment(pt(0, 1), pt(5, 1));
    assert_eq!(horizontal.horiz_line_intersects(1), None);
}

#[test]
fn winding_values() {
    assert_eq!(LineSegment(pt(0, 0), pt(0, 4)).winding_value(), 1);
    assert_eq!(LineSegment(pt(0, 4), pt(0, 0)).winding_value(), -1);
    assert_eq!(LineSegment(pt(4, 0), pt(0, 0)).winding_value(), 1);
    assert_eq!(LineSegment(pt(0, 0), pt(4, 0)).winding_value(), -1);
}

#[test]
fn sequential_group_lookup() {
    let group = SequentialMapGroup {
        start_char_code: 0x1d400,
        end_char_code: 0x1d433,
        start_glyph_id: 700,
    };
    assert_eq!(group.lookup_glyph_id(0x1d41a), Some(700 + (0x1d41a - 0x1d400)));
    assert_eq!(group.lookup_glyph_id(0x1d3ff), None);
    assert_eq!(group.lookup_glyph_id(0x1d434), None);
}

#[test]
fn matrix_grid() {
    let mut m: Matrix<i32> = Matrix::new(3, 2);
    m.set(2, 1, 7);
    assert_eq!(m.at(2, 1), 7);
    assert_eq!(m.at(0, 0), 0);
    assert_eq!(m.width, 3);
    assert_eq!(m.height, 2);
}

#[test]
fn horizontal_metrics_runs() {
    // Two full entries, then bare bearings.
    let bytes: Vec<u8> = vec![
        0x02, 0x00, 0x00, 0x10, // advance 512, bearing 16
        0x01, 0x00, 0xFF, 0xF0, // advance 256, bearing -16
        0x00, 0x20, // bare bearing 32
    ];
    let hmtx = HMTX::parse_metrics(&bytes, 2);
    assert_eq!(
        hmtx.metrics_for_glyph(0),
        HorizMetric { advance_width: Some(512), left_bearing: 16 }
    );
    assert_eq!(
        hmtx.metrics_for_glyph(1),
        HorizMetric { advance_width: Some(256), left_bearing: -16 }
    );
    assert_eq!(
        hmtx.metrics_for_glyph(2),
        HorizMetric { advance_width: None, left_bearing: 32 }
    );
}

#[test]
fn glyph_id_wraps_modulo() {
    // A delta that pushes past 2^16 wraps around.
    // One segment covering exactly code point 10, delta -11: the glyph id
    // is (10 - 11) mod 2^16.
    let mut t: Vec<u8> = Vec::new();
    let fields: [u16; 7] = [4, 24, 0, 2, 2, 0, 0];
    for f in fields {
        t.extend_from_slice(&f.to_be_bytes());
    }
    t.extend_from_slice(&10u16.to_be_bytes()); // end
    t.extend_from_slice(&0u16.to_be_bytes()); // reserved
    t.extend_from_slice(&10u16.to_be_bytes()); // start
    t.extend_from_slice(&(-11i16).to_be_bytes()); // delta
    t.extend_from_slice(&0u16.to_be_bytes()); // range offset
    let f4 = Format4::parse_format(&t).unwrap();
    assert_eq!(f4.lookup_glyph_id(10), Some(0xFFFF));
}

#[test]
fn composite_component_fields() {
    let empty: &[u8] = &[];
    let walker = CompositeCoordinates {
        glyf: Glyf(BufView(empty, PhantomData)),
        components: empty,
        component_idx: 0,
        current_glyph: None,
    };

    // Word-sized x/y offsets.
    let args_buf: &[u8] = &[0x01, 0x00, 0xFF, 0x9C];
    let (rest, a1, a2) = walker
        .args(ARGS_ARE_XY_VALUES | ARG_1_AND_2_ARE_WORDS, args_buf)
        .unwrap();
    assert_eq!((a1, a2), (256, -100));
    assert_eq!(rest.len(), 0);

    // Byte-sized offsets.
    let args_buf: &[u8] = &[0x05, 0xFB];
    let (rest, a1, a2) = walker.args(ARGS_ARE_XY_VALUES, args_buf).unwrap();
    assert_eq!((a1, a2), (5, -5));
    assert_eq!(rest.len(), 0);

    // Point-number arguments are not decoded.
    assert!(walker.args(ARG_1_AND_2_ARE_WORDS, args_buf).is_none());

    // Separate axis scales, raw 2.14 quarters: 1.0 and 0.5.
    let scale_buf: &[u8] = &[0x40, 0x00, 0x20, 0x00];
    let (rest, m) = walker
        .affine_square(WE_HAVE_AN_X_AND_Y_SCALE, scale_buf)
        .unwrap();
    assert_eq!(m, [0x4000, 0, 0, 0x2000]);
    assert_eq!(rest.len(), 0);

    // No scale bits: the identity.
    let (_, m) = walker.affine_square(0, &[]).unwrap();
    assert_eq!(m, [0x4000, 0, 0, 0x4000]);
}
