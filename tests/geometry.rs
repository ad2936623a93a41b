use scop::{
    parse_vertex, Vertex, centroid, grey_scale, load_vertices, normalize, parse_face_point, parse_index, parse_number,
    parsing_data, pick_in_range, pick_shade, random_range, triangulate, Corner, Data, ParseError,
    Ratio, Vect3,
};

fn corner(v: usize) -> Corner {
    Corner { v, vt: None, vn: None }
}

fn words(line: &str) -> Vec<Vec<u8>> {
    line.split_whitespace().map(|w| w.as_bytes().to_vec()).collect()
}

#[test]
fn fan_of_pentagon_has_three_triangles_from_first_corner() {
    let cs: Vec<Corner> = (0..5).map(corner).collect();
    let tris = triangulate(&cs);
    assert_eq!(tris.len(), 3);
    for (i, t) in tris.iter().enumerate() {
        assert_eq!(t.0, cs[0]);
        assert_eq!(t.1, cs[i + 1]);
        assert_eq!(t.2, cs[i + 2]);
    }
}

#[test]
fn short_polygon_gives_no_triangles() {
    let cs: Vec<Corner> = (0..2).map(corner).collect();
    assert!(triangulate(&cs).is_empty());
    assert!(triangulate(&[]).is_empty());
    let d = parsing_data(b"v 0 0 0\nv 1 0 0\nf 1 2\n", 1).unwrap();
    assert_eq!(d.faces.len(), 0);
}

#[test]
fn quad_gives_two_fanned_triangles() {
    let text = b"v 0 0 0\nv 1 0 0\nv 1 1 0\nv 0 1 0\nf 1 2 3 4\n";
    let d = parsing_data(text, 3).unwrap();
    assert_eq!(d.faces.len(), 2);
    let f0 = d.faces[0];
    let f1 = d.faces[1];
    assert_eq!((f0.p0.v, f0.p1.v, f0.p2.v), (0, 1, 2));
    assert_eq!((f1.p0.v, f1.p1.v, f1.p2.v), (0, 2, 3));
}

#[test]
fn triangle_scenario_parses_centres_and_scales() {
    let d = parsing_data(b"v 0 0 0\nv 1 0 0\nv 0 1 0\nf 1 2 3\n", 9).unwrap();
    assert_eq!(d.faces.len(), 1);
    let f = d.faces[0];
    assert_eq!((f.p0.v, f.p1.v, f.p2.v), (0, 1, 2));
    let (cx, cy, cz) = centroid(&d.geo_vert);
    // 1/3, 1/3, 0
    assert_eq!(cx.num * 3, cx.den);
    assert_eq!(cy.num * 3, cy.den);
    assert_eq!(cz.num, 0);
    let n = normalize(&d.geo_vert);
    let sx: i128 = n.points.iter().map(|p| p.x).sum();
    let sy: i128 = n.points.iter().map(|p| p.y).sum();
    let sz: i128 = n.points.iter().map(|p| p.z).sum();
    assert_eq!((sx, sy, sz), (0, 0, 0));
    let m = n.points.iter().map(|p| p.x.abs().max(p.y.abs())).max().unwrap();
    assert_eq!(10 * m, 9 * n.den);
    assert_eq!(n.points[1].x as f64 / n.den as f64, 0.9);
}

#[test]
fn normalization_scales_z_by_the_xy_factor() {
    let ps = vec![Vect3::new(-2_000_000, 0, 10_000_000), Vect3::new(2_000_000, 0, -10_000_000)];
    let n = normalize(&ps);
    // centred x is +-2, so the scale is 0.45 and z becomes +-4.5
    assert_eq!(n.points[0].x as f64 / n.den as f64, -0.9);
    assert_eq!(n.points[0].z as f64 / n.den as f64, 4.5);
    assert_eq!(n.points[1].z as f64 / n.den as f64, -4.5);
}

#[test]
fn normalization_leaves_degenerate_sets_alone() {
    let empty = normalize(&vec![]);
    assert!(empty.points.is_empty());
    assert!(empty.den > 0);
    let ps = vec![Vect3::new(1_000_000, 2_000_000, 3_000_000), Vect3::new(1_000_000, 2_000_000, 5_000_000)];
    let n = normalize(&ps);
    assert_eq!(n.den, 1_000_000);
    assert_eq!((n.points[1].x, n.points[1].y, n.points[1].z), (1_000_000, 2_000_000, 5_000_000));
}

#[test]
fn numbers_read_as_millionths() {
    assert_eq!(parse_number(b"1.5"), Ok(1_500_000));
    assert_eq!(parse_number(b"-0.25"), Ok(-250_000));
    assert_eq!(parse_number(b"+3"), Ok(3_000_000));
    assert_eq!(parse_number(b"1.2345678"), Ok(1_234_567));
    assert_eq!(parse_number(b".5"), Ok(500_000));
    assert_eq!(parse_number(b"5."), Ok(5_000_000));
    assert_eq!(parse_number(b"999999999.999999"), Ok(999_999_999_999_999));
}

#[test]
fn malformed_numbers_are_refused() {
    for bad in [&b""[..], b"-", b".", b"1.2.3", b"abc", b"1000000000", b"--1", b"1-"] {
        assert_eq!(parse_number(bad), Err(ParseError::Format));
    }
}

#[test]
fn indices_are_one_based_and_checked() {
    assert_eq!(parse_index(b"3", 3), Ok(2));
    assert_eq!(parse_index(b"1", 3), Ok(0));
    assert_eq!(parse_index(b"0", 3), Err(ParseError::Index));
    assert_eq!(parse_index(b"4", 3), Err(ParseError::Index));
    assert_eq!(parse_index(b"99999999999999999999999", 3), Err(ParseError::Index));
    assert_eq!(parse_index(b"x", 3), Err(ParseError::Format));
    assert_eq!(parse_index(b"", 3), Err(ParseError::Format));
}

#[test]
fn face_points_take_optional_references() {
    let d = parsing_data(b"v 0 0 0\nv 1 0 0\nvt 0.5 0.25\nvn 0 0 1\n", 0).unwrap();
    let c = parse_face_point(&b"2/1/1".to_vec(), &d).unwrap();
    assert_eq!(c, Corner { v: 1, vt: Some(0), vn: Some(0) });
    let c = parse_face_point(&b"2//1".to_vec(), &d).unwrap();
    assert_eq!(c, Corner { v: 1, vt: None, vn: Some(0) });
    let c = parse_face_point(&b"1/1".to_vec(), &d).unwrap();
    assert_eq!(c, Corner { v: 0, vt: Some(0), vn: None });
    assert_eq!(parse_face_point(&b"3".to_vec(), &d), Err(ParseError::Index));
    assert_eq!(parse_face_point(&b"1/2".to_vec(), &d), Err(ParseError::Index));
    assert_eq!(parse_face_point(&b"1/1/1/1".to_vec(), &d), Err(ParseError::Format));
    assert_eq!(parse_face_point(&b"a".to_vec(), &d), Err(ParseError::Format));
}

#[test]
fn records_are_read_leniently_but_numbers_strictly() {
    let text = b"# a comment\r\no name\r\nv 1 2 3\r\nv 1 2\r\nvt 0.5\r\nvn 0 1 0\r\n\r\nusemtl x\r\n";
    let d = parsing_data(text, 0).unwrap();
    assert_eq!(d.geo_vert.len(), 1);
    assert_eq!(d.geo_vert[0], Vect3::new(1_000_000, 2_000_000, 3_000_000));
    assert_eq!(d.text_vert.len(), 1);
    assert_eq!(d.text_vert[0], Vect3::new(500_000, 0, 0));
    assert_eq!(d.vert_norm.len(), 1);
    assert_eq!(parsing_data(b"v 1 2 x\n", 0).err(), Some(ParseError::Format));
    assert_eq!(parsing_data(b"v 0 0 0\nf 1 2 3\n", 0).err(), Some(ParseError::Index));
}

#[test]
fn faces_without_three_distinct_positions_are_dropped() {
    let d = parsing_data(b"v 0 0 0\nv 1 0 0\nf 1 1 2\nf 2 2 2 1\n", 0).unwrap();
    assert_eq!(d.faces.len(), 0);
}

#[test]
fn empty_text_gives_empty_model() {
    let d = parsing_data(b"", 0).unwrap();
    assert!(d.geo_vert.is_empty() && d.faces.is_empty());
}

#[test]
fn shades_are_fixed_by_seed_and_face_number() {
    assert_eq!(pick_shade(0, 0), 0);
    assert_eq!(pick_shade(7, 0), 1);
    assert_eq!(pick_shade(7, 1), 4);
    let text = b"v 0 0 0\nv 1 0 0\nv 1 1 0\nv 0 1 0\nf 1 2 3 4\n";
    let a = parsing_data(text, 7).unwrap();
    let b = parsing_data(text, 7).unwrap();
    assert_eq!(a.faces[0].shade, 1);
    assert_eq!(a.faces[1].shade, 4);
    assert_eq!(a.faces, b.faces);
}

#[test]
fn palette_and_ranges() {
    assert_eq!(grey_scale(0), Ratio { num: 0, den: 5 });
    assert_eq!(grey_scale(5), Ratio { num: 5, den: 5 });
    assert_eq!(pick_in_range(17, 2, 7), 4);
    for _ in 0..20 {
        let r = random_range(3, 9);
        assert!((3..9).contains(&r));
    }
}

#[test]
fn vertex_buffer_interleaves_position_grey_and_texcoord() {
    let text = b"v 0 0 0\nv 1 0 0\nv 0 1 0\nvt 0.5 0.25\nf 1/1 2 3\n";
    let d: Data = parsing_data(text, 7).unwrap();
    let n = normalize(&d.geo_vert);
    let g = grey_scale(d.faces[0].shade);
    let plain = load_vertices(&d, &n, false);
    assert_eq!(plain.len(), 3 * 6);
    assert_eq!(plain[0], Ratio { num: n.points[0].x, den: n.den });
    assert_eq!(plain[3], g);
    assert_eq!(plain[6], Ratio { num: n.points[1].x, den: n.den });
    let tex = load_vertices(&d, &n, true);
    assert_eq!(tex.len(), 3 * 8);
    assert_eq!(tex[6], Ratio { num: 500_000, den: 1_000_000 });
    assert_eq!(tex[7], Ratio { num: 250_000, den: 1_000_000 });
    assert_eq!(tex[14], Ratio { num: 0, den: 1 });
    assert_eq!(tex[8], Ratio { num: n.points[1].x, den: n.den });
}

#[test]
fn words_helper_matches_whitespace() {
    assert_eq!(words("f 1 2"), vec![b"f".to_vec(), b"1".to_vec(), b"2".to_vec()]);
}

#[test]
fn strict_vertex_reading_refuses_short_records() {
    assert_eq!(parse_vertex(&words("v 1 -2 0.5")), Ok(Vertex::new(1_000_000, -2_000_000, 500_000, 0)));
    assert_eq!(parse_vertex(&words("v 1 2")), Err(ParseError::Format));
    assert_eq!(parse_vertex(&words("v 1 2 z")), Err(ParseError::Format));
}

#[test]
fn faces_may_name_positions_given_later() {
    let d = parsing_data(b"f 1 2 3\nv 0 0 0\nv 1 0 0\nv 0 1 0\n", 5).unwrap();
    assert_eq!(d.geo_vert.len(), 3);
    assert_eq!(d.faces.len(), 1);
    assert_eq!((d.faces[0].p0.v, d.faces[0].p1.v, d.faces[0].p2.v), (0, 1, 2));
    assert_eq!(parsing_data(b"f 1 2 4\nv 0 0 0\nv 1 0 0\nv 0 1 0\n", 5).err(), Some(ParseError::Index));
}

#[test]
fn short_face_records_are_skipped_whatever_they_hold() {
    let d = parsing_data(b"v 0 0 0\nf 1 x\nf\nf 9 9\n", 0).unwrap();
    assert_eq!(d.faces.len(), 0);
}

#[test]
fn failed_records_leave_the_model_unchanged() {
    use_failed_records();
}

fn use_failed_records() {
    let mut d = parsing_data(b"v 0 0 0\nv 1 0 0\nv 0 1 0\nf 1 2 3\n", 0).unwrap();
    let before = (d.geo_vert.clone(), d.faces.clone());
    assert_eq!(scop::parse_geo_vert(&mut d, &words("v 1 x 2")), Err(ParseError::Format));
    assert_eq!(scop::parse_faces(&mut d, &words("f 1 2 7"), 0), Err(ParseError::Index));
    assert_eq!((d.geo_vert.clone(), d.faces.clone()), before);
}

#[test]
fn exponents_move_the_decimal_point() {
    assert_eq!(parse_number(b"1e5"), Ok(100_000_000_000));
    assert_eq!(parse_number(b"1.5e-3"), Ok(1_500));
    assert_eq!(parse_number(b"-2.5E2"), Ok(-250_000_000));
    assert_eq!(parse_number(b"1e+2"), Ok(100_000_000));
    assert_eq!(parse_number(b"1.e2"), Ok(100_000_000));
    assert_eq!(parse_number(b"0.0000001e1"), Ok(1));
    assert_eq!(parse_number(b"1e-7"), Ok(0));
    assert_eq!(parse_number(b"-1.234567e-5"), Ok(-12));
    let d = parsing_data(b"v 1e-1 2.5E1 -3e0\n", 0).unwrap();
    assert_eq!(d.geo_vert[0], Vect3::new(100_000, 25_000_000, -3_000_000));
}

#[test]
fn malformed_exponents_are_refused() {
    for bad in [&b"1e"[..], b"e5", b"1e5e", b"1e9", b"1e100", b"1e1.5", b"1ee2", b"1e-"] {
        assert_eq!(parse_number(bad), Err(ParseError::Format));
    }
}
