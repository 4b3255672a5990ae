//! Tests for the raw MTL parser.

use obj::ObjError;
use obj::error::LoadErrorKind;
use obj::raw::material::{Dissolve, MtlColor, RawMtl, parse_mtl};

fn parsed(src: &str) -> RawMtl {
    parse_mtl(src).expect("parsing should succeed")
}

fn load_error_kind(src: &str) -> LoadErrorKind {
    match parse_mtl(src) {
        Err(ObjError::Load(e)) => *e.kind(),
        other => panic!("expected a load error, got {:?}", other),
    }
}

fn token(s: &str) -> String {
    s.to_string()
}

#[test]
fn single_color_value_broadcasts_to_all_channels() {
    // `Kd 0.5` means the gray color `Rgb(0.5, 0.5, 0.5)`.
    let mtl = parsed("newmtl m\nKd 0.5\n");
    let m = mtl.materials.get("m").expect("material should exist");
    assert_eq!(
        m.diffuse,
        Some(MtlColor::Rgb(token("0.5"), token("0.5"), token("0.5")))
    );
}

#[test]
fn three_color_values_are_kept_in_order() {
    let mtl = parsed("newmtl m\nKd 0.1 0.2 0.3\n");
    let m = mtl.materials.get("m").expect("material should exist");
    assert_eq!(
        m.diffuse,
        Some(MtlColor::Rgb(token("0.1"), token("0.2"), token("0.3")))
    );
}

#[test]
fn two_color_values_are_rejected() {
    assert_eq!(
        load_error_kind("newmtl m\nKd 0.1 0.2\n"),
        LoadErrorKind::WrongNumberOfArguments
    );
}

#[test]
fn xyz_and_spectral_colors_parse() {
    let mtl = parsed("newmtl m\nKa xyz 0.3\nKs xyz 0.1 0.2 0.3\nKe spectral curve.rfl\nTf spectral curve.rfl 0.7\n");
    let m = mtl.materials.get("m").expect("material should exist");
    assert_eq!(
        m.ambient,
        Some(MtlColor::Xyz(token("0.3"), token("0.3"), token("0.3")))
    );
    assert_eq!(
        m.specular,
        Some(MtlColor::Xyz(token("0.1"), token("0.2"), token("0.3")))
    );
    assert_eq!(
        m.emissive,
        Some(MtlColor::Spectral(token("curve.rfl"), token("1")))
    );
    assert_eq!(
        m.transmission_filter,
        Some(MtlColor::Spectral(token("curve.rfl"), token("0.7")))
    );
}

#[test]
fn scalar_statements_fill_their_fields() {
    let mtl = parsed("newmtl m\nNs 96.078431\nNi 1.0\nillum 2\nd 0.7\n");
    let m = mtl.materials.get("m").expect("material should exist");
    assert_eq!(m.specular_exponent, Some(token("96.078431")));
    assert_eq!(m.optical_density, Some(token("1.0")));
    assert_eq!(m.illumination_model, Some(2));
    assert_eq!(m.dissolve, Some(Dissolve::Value(token("0.7"))));
}

#[test]
fn tr_records_the_complement() {
    // `Tr v` states the dissolve as one minus `v`.
    let mtl = parsed("newmtl m\nTr 0.4\n");
    let m = mtl.materials.get("m").expect("material should exist");
    assert_eq!(m.dissolve, Some(Dissolve::Complement(token("0.4"))));
}

#[test]
fn scalar_statements_take_exactly_one_argument() {
    assert_eq!(
        load_error_kind("newmtl m\nNs 1 2\n"),
        LoadErrorKind::WrongNumberOfArguments
    );
}

#[test]
fn statements_before_newmtl_are_discarded() {
    let mtl = parsed("Kd 0.5\nnewmtl m\nNs 1\n");
    assert_eq!(mtl.materials.len(), 1);
    let m = mtl.materials.get("m").expect("material should exist");
    assert_eq!(m.diffuse, None);
    assert_eq!(m.specular_exponent, Some(token("1")));
}

#[test]
fn each_newmtl_starts_a_fresh_material() {
    let mtl = parsed("newmtl a\nKd 0.1\nnewmtl b\nNs 2\n");
    assert_eq!(mtl.materials.len(), 2);
    let a = mtl.materials.get("a").expect("material a should exist");
    assert_eq!(
        a.diffuse,
        Some(MtlColor::Rgb(token("0.1"), token("0.1"), token("0.1")))
    );
    assert_eq!(a.specular_exponent, None);
    let b = mtl.materials.get("b").expect("material b should exist");
    assert_eq!(b.diffuse, None);
    assert_eq!(b.specular_exponent, Some(token("2")));
}

#[test]
fn texture_maps_read_their_options() {
    let mtl = parsed(
        "newmtl m\nmap_Kd -o 0.1 0.2 0.3 -s 2 3 4 diffuse.png\nmap_Ks -t 0.05 0.05 0.0 specular.png\nmap_Ke -texres 512 emissive.png\nmap_d -clamp on dissolve.png\nbump -bm 2.5 -mm 0.2 0.8 normal.png\n",
    );
    let m = mtl.materials.get("m").expect("material should exist");
    let d = m.diffuse_map.as_ref().expect("diffuse map should exist");
    assert_eq!(d.file, token("diffuse.png"));
    assert_eq!(d.origin_offset, (token("0.1"), token("0.2"), token("0.3")));
    assert_eq!(d.scale, (token("2"), token("3"), token("4")));
    let s = m.specular_map.as_ref().expect("specular map should exist");
    assert_eq!(s.file, token("specular.png"));
    assert_eq!(s.turbulence, (token("0.05"), token("0.05"), token("0.0")));
    let e = m.emissive_map.as_ref().expect("emissive map should exist");
    assert_eq!(e.file, token("emissive.png"));
    assert_eq!(e.resolution, 512);
    let ds = m.dissolve_map.as_ref().expect("dissolve map should exist");
    assert_eq!(ds.file, token("dissolve.png"));
    assert_eq!(ds.clamping, true);
    let b = m.bump_map.as_ref().expect("bump map should exist");
    assert_eq!(b.file, token("normal.png"));
    assert_eq!(b.bump_multiplier, token("2.5"));
    assert_eq!(b.base_gain, (token("0.2"), token("0.8")));
    assert_eq!(b.clamping, false);
}

#[test]
fn blending_flags_parse_case_insensitively() {
    let mtl = parsed("newmtl m\nmap_Kd -blendu ON -blendv off texture.png\n");
    let m = mtl.materials.get("m").expect("material should exist");
    let d = m.diffuse_map.as_ref().expect("diffuse map should exist");
    assert_eq!(d.blend_u, true);
    assert_eq!(d.blend_v, false);
}

#[test]
fn unknown_texture_options_are_skipped() {
    // The one deliberate silent skip: an option the library does not
    // recognize is passed over without effect.
    let mtl = parsed("newmtl m\nmap_Kd -imfchan r diffuse.png\n");
    let m = mtl.materials.get("m").expect("material should exist");
    let d = m.diffuse_map.as_ref().expect("diffuse map should exist");
    assert_eq!(d.file, token("diffuse.png"));
}

#[test]
fn texture_map_needs_a_filename() {
    assert_eq!(load_error_kind("newmtl m\nmap_Kd\n"), LoadErrorKind::WrongNumberOfArguments);
}

#[test]
fn missing_option_value_is_rejected() {
    assert_eq!(
        load_error_kind("newmtl m\nmap_Kd -bm diffuse.png\n"),
        LoadErrorKind::WrongNumberOfArguments
    );
}

#[test]
fn unknown_mtl_keyword_is_rejected() {
    assert_eq!(load_error_kind("frobnicate 1\n"), LoadErrorKind::UnexpectedStatement);
}

#[test]
fn malformed_mtl_float_is_rejected() {
    match parse_mtl("newmtl m\nNs abc\n") {
        Err(ObjError::ParseFloat) => {},
        other => panic!("expected a float parse failure, got {:?}", other),
    }
}

#[test]
fn float_tokens_match_the_standard_parser() {
    // The library validates numeric tokens against the same grammar the
    // standard float parser uses; cross-check on accepted and rejected
    // shapes.
    let cases = [
        "1", "1.", ".5", "1.5", "1e5", "1.e5", "1E-5", "+.5e+3", "-.5", "-inf", "INFINITY",
        "inf", "nan", "NaN", "-NAN", ".", "e5", "1e", "1e+", "--1", "1.2.3", "0x1", "5f",
        "1_000", "infinityy", "in", "+", "-", "1e5.5", "3.402823e38", "1e-9999", "00.100",
    ];
    for c in cases {
        let mine = parse_mtl(&format!("newmtl m\nNs {c}\n")).is_ok();
        let std_parse = c.parse::<f32>().is_ok();
        assert_eq!(mine, std_parse, "token {c:?} classified differently");
    }
}
