//! Tests for the raw OBJ parser.

use obj::ObjError;
use obj::error::{IntErrorKind, LoadErrorKind};
use obj::raw::object::{Polygon, Range, RawObj, parse_obj};

fn parsed(src: &str) -> RawObj {
    parse_obj(src).expect("parsing should succeed")
}

fn load_error_kind(src: &str) -> LoadErrorKind {
    match parse_obj(src) {
        Err(ObjError::Load(e)) => *e.kind(),
        other => panic!("expected a load error, got {:?}", other),
    }
}

fn token(s: &str) -> String {
    s.to_string()
}

#[test]
fn empty_source_gives_an_empty_document() {
    let doc = parsed("");
    assert_eq!(doc.name, None);
    assert_eq!(doc.material_libraries.len(), 0);
    assert_eq!(doc.positions.len(), 0);
    assert_eq!(doc.tex_coords.len(), 0);
    assert_eq!(doc.normals.len(), 0);
    assert_eq!(doc.param_vertices.len(), 0);
    assert_eq!(doc.points.len(), 0);
    assert_eq!(doc.lines.len(), 0);
    assert_eq!(doc.polygons.len(), 0);
    assert_eq!(doc.groups.len(), 0);
    assert_eq!(doc.meshes.len(), 0);
    assert_eq!(doc.smoothing_groups.len(), 0);
    assert_eq!(doc.merging_groups.len(), 0);
}

#[test]
fn positions_keep_their_tokens_and_default_weight() {
    let doc = parsed("v 1.000000 -1.000000 0.5\nv 1 2 3 4\n");
    assert_eq!(
        doc.positions,
        vec![
            (token("1.000000"), token("-1.000000"), token("0.5"), token("1")),
            (token("1"), token("2"), token("3"), token("4")),
        ]
    );
}

#[test]
fn tex_coords_default_missing_components_to_zero() {
    let doc = parsed("vt 0.5\nvt 0.1 0.2\nvt 0.1 0.2 0.3\n");
    assert_eq!(
        doc.tex_coords,
        vec![
            (token("0.5"), token("0"), token("0")),
            (token("0.1"), token("0.2"), token("0")),
            (token("0.1"), token("0.2"), token("0.3")),
        ]
    );
}

#[test]
fn param_vertices_default_like_the_format_says() {
    let doc = parsed("vp 0.5\nvp 0.1 0.2\n");
    assert_eq!(
        doc.param_vertices,
        vec![
            (token("0.5"), token("0"), token("1")),
            (token("0.1"), token("0.2"), token("1")),
        ]
    );
}

#[test]
fn normals_require_exactly_three_components() {
    assert_eq!(load_error_kind("vn 1 2\n"), LoadErrorKind::WrongNumberOfArguments);
}

#[test]
fn malformed_float_token_is_rejected() {
    match parse_obj("v one two three\n") {
        Err(ObjError::ParseFloat) => {},
        other => panic!("expected a float parse failure, got {:?}", other),
    }
}

#[test]
fn negative_indices_resolve_backwards() {
    // With five declared positions, `f -1 -2 -3` addresses slots 4, 3, 2.
    let doc = parsed("v 0 0 0\nv 0 0 0\nv 0 0 0\nv 0 0 0\nv 0 0 0\nf -1 -2 -3\n");
    assert_eq!(doc.polygons, vec![Polygon::P(vec![4, 3, 2])]);
}

#[test]
fn zero_and_out_of_range_indices_are_rejected() {
    assert_eq!(load_error_kind("v 0 0 0\nf 0 1 1\n"), LoadErrorKind::IndexOutOfRange);
    assert_eq!(load_error_kind("v 0 0 0\nf 1 1 2\n"), LoadErrorKind::IndexOutOfRange);
    assert_eq!(load_error_kind("v 0 0 0\nf 1 1 -2\n"), LoadErrorKind::IndexOutOfRange);
}

#[test]
fn group_ranges_resume_on_reuse() {
    // `g A` with three faces, `g B` with two, `g A` with one more: group A
    // holds two disjoint polygon ranges of lengths 3 and 1, group B one
    // range of length 2.
    let doc = parsed(
        "v 0 0 0\ng A\nf 1 1 1\nf 1 1 1\nf 1 1 1\ng B\nf 1 1 1\nf 1 1 1\ng A\nf 1 1 1\n",
    );
    assert_eq!(doc.groups.len(), 2);
    let a = doc.groups.get("A").expect("group A should exist");
    assert_eq!(a.points.len(), 0);
    assert_eq!(a.lines.len(), 0);
    assert_eq!(
        a.polygons,
        vec![Range { start: 0, end: 3 }, Range { start: 5, end: 6 }]
    );
    let b = doc.groups.get("B").expect("group B should exist");
    assert_eq!(b.polygons, vec![Range { start: 3, end: 5 }]);
}

#[test]
fn default_group_covers_everything_without_g() {
    let doc = parsed("v 0 0 0\nf 1 1 1\nf 1 1 1\n");
    assert_eq!(doc.groups.len(), 1);
    let g = doc.groups.get("default").expect("default group should exist");
    assert_eq!(g.polygons, vec![Range { start: 0, end: 2 }]);
    let m = doc.meshes.get("").expect("default mesh should exist");
    assert_eq!(m.polygons, vec![Range { start: 0, end: 2 }]);
}

#[test]
fn smoothing_groups_track_ranges_by_number() {
    let doc = parsed(
        "v 0 0 0\ns 1\nf 1 1 1\nf 1 1 1\nf 1 1 1\ns 2\nf 1 1 1\nf 1 1 1\nf 1 1 1\ns 1\nf 1 1 1\nf 1 1 1\nf 1 1 1\n",
    );
    assert_eq!(doc.smoothing_groups.len(), 2);
    let one = doc.smoothing_groups.get(1).expect("group 1 should exist");
    assert_eq!(
        one.polygons,
        vec![Range { start: 0, end: 3 }, Range { start: 6, end: 9 }]
    );
    let two = doc.smoothing_groups.get(2).expect("group 2 should exist");
    assert_eq!(two.polygons, vec![Range { start: 3, end: 6 }]);
}

#[test]
fn smoothing_off_closes_the_group() {
    let doc = parsed("v 0 0 0\ns 7\nf 1 1 1\ns off\nf 1 1 1\n");
    assert_eq!(doc.smoothing_groups.len(), 1);
    let seven = doc.smoothing_groups.get(7).expect("group 7 should exist");
    assert_eq!(seven.polygons, vec![Range { start: 0, end: 1 }]);
}

#[test]
fn smoothing_key_must_be_an_integer() {
    match parse_obj("s abc\n") {
        Err(ObjError::ParseInt(k)) => assert_eq!(k, IntErrorKind::InvalidDigit),
        other => panic!("expected an integer parse failure, got {:?}", other),
    }
}

#[test]
fn merging_groups_track_ranges_by_number() {
    let doc = parsed("v 0 0 0\nmg 3\nf 1 1 1\nmg 0\nf 1 1 1\n");
    assert_eq!(doc.merging_groups.len(), 1);
    let three = doc.merging_groups.get(3).expect("group 3 should exist");
    assert_eq!(three.polygons, vec![Range { start: 0, end: 1 }]);
}

#[test]
fn last_object_name_wins() {
    let doc = parsed("o First Name\no Second Name\n");
    assert_eq!(doc.name, Some("Second Name".to_string()));
    let cleared = parsed("o Something\no\n");
    assert_eq!(cleared.name, None);
}

#[test]
fn material_libraries_accumulate_in_order() {
    let doc = parsed("mtllib a.mtl b.mtl\nmtllib c.mtl\n");
    assert_eq!(
        doc.material_libraries,
        vec![token("a.mtl"), token("b.mtl"), token("c.mtl")]
    );
}

#[test]
fn usemtl_switches_the_mesh() {
    let doc = parsed("v 0 0 0\nusemtl Stone\nf 1 1 1\n");
    assert_eq!(doc.meshes.len(), 1);
    let stone = doc.meshes.get("Stone").expect("mesh should exist");
    assert_eq!(stone.polygons, vec![Range { start: 0, end: 1 }]);
}

#[test]
fn points_and_lines_parse() {
    let doc = parsed("v 0 0 0\nv 1 1 1\nvt 0 0\np 1 2\nl 1 2\nl 1/1 2/1\n");
    assert_eq!(doc.points, vec![0, 1]);
    assert_eq!(doc.lines.len(), 2);
    assert_eq!(doc.lines[0], obj::raw::object::Line::P(vec![0, 1]));
    assert_eq!(doc.lines[1], obj::raw::object::Line::PT(vec![(0, 0), (1, 0)]));
}

#[test]
fn lines_need_two_references() {
    assert_eq!(load_error_kind("v 0 0 0\nl 1\n"), LoadErrorKind::WrongNumberOfArguments);
}

#[test]
fn faces_need_three_references() {
    // `f 1 2` has only two references.
    assert_eq!(load_error_kind("v 0 0 0\nf 1 2\n"), LoadErrorKind::WrongNumberOfArguments);
}

#[test]
fn face_shape_is_fixed_by_the_first_reference() {
    // `f 1/1 2 3` mixes the position/texture shape with bare positions.
    assert_eq!(
        load_error_kind("v 0 0 0\nvt 0 0\nf 1/1 2 3\n"),
        LoadErrorKind::WrongTypeOfArguments
    );
}

#[test]
fn all_four_face_shapes_parse() {
    let doc = parsed(
        "v 0 0 0\nvt 0 0\nvn 0 0 1\nf 1 1 1\nf 1/1 1/1 1/1\nf 1//1 1//1 1//1\nf 1/1/1 1/1/1 1/1/1\n",
    );
    assert_eq!(
        doc.polygons,
        vec![
            Polygon::P(vec![0, 0, 0]),
            Polygon::PT(vec![(0, 0), (0, 0), (0, 0)]),
            Polygon::PN(vec![(0, 0), (0, 0), (0, 0)]),
            Polygon::PTN(vec![(0, 0, 0), (0, 0, 0), (0, 0, 0)]),
        ]
    );
}

#[test]
fn unknown_keyword_is_rejected() {
    assert_eq!(load_error_kind("frobnicate 1 2 3\n"), LoadErrorKind::UnexpectedStatement);
}

#[test]
fn group_statement_needs_a_name() {
    assert_eq!(load_error_kind("g\n"), LoadErrorKind::WrongNumberOfArguments);
}

#[test]
fn continuation_parses_like_the_joined_statement() {
    let split = parsed("v 0 0 0\nv 1 1 1\nv 2 2 2\nf 1 \\\n2 \\\n3\n");
    let joined = parsed("v 0 0 0\nv 1 1 1\nv 2 2 2\nf 1 2 3\n");
    assert_eq!(split, joined);
}

#[test]
fn fo_parses_like_f() {
    let with_f = parsed("v 0 0 0\nf 1 1 1\n");
    let with_fo = parsed("v 0 0 0\nfo 1 1 1\n");
    assert_eq!(with_f.polygons, with_fo.polygons);
}

#[test]
fn signed_smoothing_keys_follow_integer_parsing() {
    // A leading plus is part of the integer grammar; an overflowing key is
    // not.
    let doc = parsed("v 0 0 0\ns +5\nf 1 1 1\n");
    assert!(doc.smoothing_groups.get(5).is_some());
    match parse_obj("s 18446744073709551616\n") {
        Err(ObjError::ParseInt(k)) => assert_eq!(k, IntErrorKind::PosOverflow),
        other => panic!("expected an overflow failure, got {:?}", other),
    }
}

#[test]
fn unsigned_keys_match_the_standard_parser() {
    // Smoothing keys go through the library's own integer parser;
    // cross-check acceptance against the standard one.
    let cases = [
        "1", "+5", "-5", "007", "18446744073709551615", "18446744073709551616", "abc", "5a",
        "++5", "0x5", "999999999999999999999999", "+",
    ];
    for c in cases {
        let mine = parse_obj(&format!("s {c}\n")).is_ok();
        let std_parse = c.parse::<usize>().is_ok();
        assert_eq!(mine, std_parse, "key {c:?} classified differently");
    }
}

#[test]
fn signed_indices_match_the_standard_parser() {
    // Vertex references go through the library's own signed integer
    // parser; a malformed one is an integer failure, anything else is not.
    let cases = [
        "1", "-1", "+1", "9223372036854775807", "9223372036854775808", "-9223372036854775808",
        "-9223372036854775809", "1.5", "--1", "5a",
    ];
    for c in cases {
        let statement = format!("v 0 0 0\np {c}\n");
        let mine_int_failure = matches!(parse_obj(&statement), Err(ObjError::ParseInt(_)));
        let std_failure = c.parse::<isize>().is_err();
        assert_eq!(mine_int_failure, std_failure, "index {c:?} classified differently");
    }
}

#[test]
fn unknown_curve_type_is_rejected() {
    assert_eq!(load_error_kind("cstype foo\n"), LoadErrorKind::WrongTypeOfArguments);
    assert_eq!(load_error_kind("cstype rat foo\n"), LoadErrorKind::WrongTypeOfArguments);
    assert_eq!(
        load_error_kind("cstype rat bezier extra\n"),
        LoadErrorKind::WrongTypeOfArguments
    );
}

#[test]
fn degree_statements_check_their_arguments() {
    assert_eq!(load_error_kind("deg 1 2 3\n"), LoadErrorKind::WrongNumberOfArguments);
    match parse_obj("deg x\n") {
        Err(ObjError::ParseFloat) => {},
        other => panic!("expected a float parse failure, got {:?}", other),
    }
}
