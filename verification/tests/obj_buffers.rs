//! Tests for the vertex/index buffer builders and `load_obj`.

use obj::error::LoadErrorKind;
use obj::{LoadError, Obj, ObjError, Position, TexturedVertex, Vertex, load_obj};

fn token(s: &str) -> String {
    s.to_string()
}

fn triple(a: &str, b: &str, c: &str) -> (String, String, String) {
    (token(a), token(b), token(c))
}

#[test]
fn issue_34() {
    let result: Result<Obj, _> = load_obj("p -18");
    match result {
        Ok(_) => panic!("Shouldn't success"),
        Err(ObjError::Load(e)) => assert_eq!(*e.kind(), LoadErrorKind::IndexOutOfRange),
        Err(_) => panic!("Wrong error type"),
    }
}

#[test]
fn issue_50() {
    let test_cases: [&str; 4] = [
        "s 1000000000000000000",
        "s 100000000000000000",
        "s 100000000000",
        "s 67108864",
    ];

    for data in test_cases {
        let obj: Obj = load_obj(data).expect("Expect success");

        assert_eq!(obj.name, None);
        assert_eq!(obj.vertices, vec![]);
        assert_eq!(obj.indices, vec![]);
    }
}

fn issue_63_case<V: obj::FromRawVertex<u8> + std::fmt::Debug>(test_case: &str) {
    let err = load_obj::<V, u8>(test_case).expect_err("Should error out due to index out of bounds");
    let expected_error =
        LoadError::new(LoadErrorKind::IndexOutOfRange, "Unable to convert the index from usize");
    match err {
        ObjError::Load(e) => {
            assert_eq!(*e.kind(), *expected_error.kind());
            assert_eq!(e.message(), expected_error.message());
        },
        _ => panic!("Expected a LoadError"),
    }
}

#[test]
fn issue_63() {
    let mut test_case: String = "o LargeObj\n".into();
    for i in 0..1000 {
        test_case.push_str(format!("v {i}.0 {i}.0 {i}.0\n").as_str());
    }
    test_case.push_str("vt 0.0 0.0\nvn 0.0 0.0 1.0\n");
    for i in 0..(1000 - 2) {
        let i = i + 1;
        let j = i + 1;
        let k = i + 2;
        test_case.push_str(format!("f {i}/1/1 {j}/1/1 {k}/1/1\n").as_str())
    }

    load_obj::<TexturedVertex, u16>(&test_case).expect("this should load properly");

    issue_63_case::<Position>(&test_case);
    issue_63_case::<Vertex>(&test_case);
    issue_63_case::<TexturedVertex>(&test_case);
}

#[test]
fn full_layout_indices_cover_each_triangle() {
    // Two triangles with full attributes: six indices, each addressing the
    // vertex buffer.
    let src = "v 0 0 0\nv 1 0 0\nv 0 1 0\nvt 0 0\nvn 0 0 1\nf 1/1/1 2/1/1 3/1/1\nf 3/1/1 2/1/1 1/1/1\n";
    let obj: Obj<TexturedVertex, u16> = load_obj(src).expect("loading should succeed");
    assert_eq!(obj.indices.len(), 6);
    for ix in &obj.indices {
        assert!((*ix as usize) < obj.vertices.len());
    }
}

#[test]
fn shared_combinations_share_one_slot() {
    // Both triangles reference the same three combinations: three vertices
    // in the buffer, and matching slots for matching references.
    let src = "v 0 0 0\nv 1 0 0\nv 0 1 0\nvn 0 0 1\nf 1//1 2//1 3//1\nf 3//1 2//1 1//1\n";
    let obj: Obj<Vertex, u16> = load_obj(src).expect("loading should succeed");
    assert_eq!(obj.vertices.len(), 3);
    assert_eq!(obj.indices, vec![0, 1, 2, 2, 1, 0]);
}

#[test]
fn vertices_carry_their_attribute_tokens() {
    let src = "v 0.1 0.2 0.3\nvt 0.4 0.5\nvn 0.6 0.7 0.8\nf 1/1/1 1/1/1 1/1/1\n";
    let obj: Obj<TexturedVertex, u16> = load_obj(src).expect("loading should succeed");
    assert_eq!(obj.vertices.len(), 1);
    assert_eq!(
        obj.vertices[0],
        TexturedVertex {
            position: triple("0.1", "0.2", "0.3"),
            normal: triple("0.6", "0.7", "0.8"),
            texture: triple("0.4", "0.5", "0"),
        }
    );
    assert_eq!(obj.indices, vec![0, 0, 0]);
}

#[test]
fn position_layout_takes_every_position() {
    let src = "v 0 0 0\nv 1 0 0\nv 0 1 0\nv 9 9 9\nf 1 2 3\n";
    let obj: Obj<Position, u16> = load_obj(src).expect("loading should succeed");
    assert_eq!(obj.vertices.len(), 4);
    assert_eq!(obj.indices, vec![0, 1, 2]);
}

#[test]
fn four_references_are_not_a_triangle() {
    // A quadrilateral parses, but the buffer builders demand triangles.
    let src = "v 0 0 0\nv 1 0 0\nv 1 1 0\nv 0 1 0\nf 1 2 3 4\n";
    match load_obj::<Position, u16>(src) {
        Err(ObjError::Load(e)) => assert_eq!(*e.kind(), LoadErrorKind::UntriangulatedModel),
        other => panic!("expected an untriangulated-model failure, got {:?}", other),
    }
}

#[test]
fn missing_attributes_are_insufficient_data() {
    let no_normals = "v 0 0 0\nf 1 1 1\n";
    match load_obj::<Vertex, u16>(no_normals) {
        Err(ObjError::Load(e)) => assert_eq!(*e.kind(), LoadErrorKind::InsufficientData),
        other => panic!("expected an insufficient-data failure, got {:?}", other),
    }
    let no_texture = "v 0 0 0\nvn 0 0 1\nf 1//1 1//1 1//1\n";
    match load_obj::<TexturedVertex, u16>(no_texture) {
        Err(ObjError::Load(e)) => assert_eq!(*e.kind(), LoadErrorKind::InsufficientData),
        other => panic!("expected an insufficient-data failure, got {:?}", other),
    }
}

#[test]
fn narrow_index_width_overflows() {
    // 260 distinct vertices do not fit an 8-bit index buffer.
    let mut src = String::new();
    for i in 0..260 {
        src.push_str(format!("v {i} 0 0\n").as_str());
    }
    src.push_str("vn 0 0 1\n");
    for i in 0..86 {
        let a = 3 * i + 1;
        src.push_str(format!("f {}//1 {}//1 {}//1\n", a, a + 1, a + 2).as_str());
    }
    match load_obj::<Vertex, u8>(&src) {
        Err(ObjError::Load(e)) => assert_eq!(*e.kind(), LoadErrorKind::IndexOutOfRange),
        other => panic!("expected an index-width failure, got {:?}", other),
    }
    load_obj::<Vertex, u16>(&src).expect("a wider index should fit");
}

#[test]
fn object_name_reaches_the_buffers() {
    let src = "o My Object\nv 0 0 0\nvn 0 0 1\nf 1//1 1//1 1//1\n";
    let obj: Obj<Vertex, u16> = load_obj(src).expect("loading should succeed");
    assert_eq!(obj.name, Some("My Object".to_string()));
}
