//! Line parsing, face bundles and the model weld.

use raytracer::error::ResourceParseError;
use raytracer::model::ModelBuilder;
use raytracer::resource_parser::{trim_ws, str_eq, ResourceParser};
use raytracer::types::{IndexBundle, Vec3};

#[test]
fn split_line_drops_empty_fields() {
    let fields = ResourceParser::split_line("  mtllib   scene.mtl ");
    assert_eq!(fields.len(), 2);
    assert_eq!(fields[0], "mtllib");
    assert_eq!(fields[1], "scene.mtl");
}

#[test]
fn split_line_of_blank_line_is_empty() {
    assert!(ResourceParser::split_line("   ").is_empty());
    assert!(ResourceParser::split_line("").is_empty());
}

#[test]
fn split_fields_keeps_empty_pieces() {
    let fields = ResourceParser::split_fields("1//3");
    assert_eq!(fields.len(), 3);
    assert_eq!(fields[0], "1");
    assert_eq!(fields[1], "");
    assert_eq!(fields[2], "3");
    assert_eq!(ResourceParser::split_fields("7").len(), 1);
}

#[test]
fn trim_strips_surrounding_whitespace() {
    assert_eq!(trim_ws(" stone.png\r"), "stone.png");
    assert_eq!(trim_ws("\t \n"), "");
    assert_eq!(trim_ws("x"), "x");
}

#[test]
fn str_eq_compares_by_content() {
    assert!(str_eq("abc", "abc"));
    assert!(!str_eq("abc", "abd"));
    assert!(!str_eq("abc", "ab"));
}

#[test]
fn parse_shifts_one_based_indices_down() {
    assert_eq!(IndexBundle::parse("5").unwrap(), 4);
    assert_eq!(IndexBundle::parse(" 1 ").unwrap(), 0);
    assert_eq!(IndexBundle::parse("0").unwrap(), 0);
    assert_eq!(IndexBundle::parse("-3").unwrap(), -3);
    assert_eq!(IndexBundle::parse("2147483647").unwrap(), 2147483646);
}

#[test]
fn parse_rejects_junk_and_overflow() {
    assert!(IndexBundle::parse("abc").is_err());
    assert!(IndexBundle::parse("").is_err());
    assert!(IndexBundle::parse("1.5").is_err());
    assert!(IndexBundle::parse("99999999999").is_err());
    match IndexBundle::parse("abc") {
        Err(ResourceParseError::ParseIntError { line }) => assert_eq!(line, "abc"),
        other => panic!("expected a parse error, got {other:?}"),
    }
}

#[test]
fn bundle_from_fields() {
    let input: Vec<&str> = vec!["1", "2", "3"];
    let ib = IndexBundle::new(&input).unwrap();
    assert_eq!(ib.pos_idx, 0);
    assert_eq!(ib.tex_idx, 1);
    assert_eq!(ib.nor_idx, 2);

    let input: Vec<&str> = vec!["4", "", "6"];
    let ib = IndexBundle::new(&input).unwrap();
    assert_eq!(ib.pos_idx, 3);
    assert_eq!(ib.tex_idx, 0, "an empty field stays zero");
    assert_eq!(ib.nor_idx, 5);

    let input: Vec<&str> = vec!["x"];
    assert!(IndexBundle::new(&input).is_err());
}

#[test]
fn normalize_resolves_relative_indices() {
    let mut ib = IndexBundle { pos_idx: -1, tex_idx: 0, nor_idx: -2 };
    ib.normalize(8, 4, 6);
    assert_eq!(ib.pos_idx, 7);
    assert_eq!(ib.tex_idx, 0);
    assert_eq!(ib.nor_idx, 4);
}

#[test]
fn parse_string_line_wants_exactly_two_fields() {
    assert_eq!(ResourceParser::parse_string_line("usemtl stone").unwrap(), "stone");
    match ResourceParser::parse_string_line("usemtl") {
        Err(ResourceParseError::InvalidLineArgCount { count, line }) => {
            assert_eq!(count, 1);
            assert_eq!(line, "usemtl");
        },
        other => panic!("expected an argument-count error, got {other:?}"),
    }
    assert!(ResourceParser::parse_string_line("usemtl a b").is_err());
}

#[test]
fn parse_index_line_triangulates_fans() {
    let tris = ResourceParser::parse_index_line("f 1/1/1 2/2/2 3/3/3").unwrap();
    assert_eq!(tris.len(), 1);
    assert_eq!(tris[0].0.pos_idx, 0);
    assert_eq!(tris[0].1.pos_idx, 1);
    assert_eq!(tris[0].2.pos_idx, 2);

    let quad = ResourceParser::parse_index_line("f 1 2 3 4").unwrap();
    assert_eq!(quad.len(), 2);
    assert_eq!((quad[0].0.pos_idx, quad[0].1.pos_idx, quad[0].2.pos_idx), (0, 1, 2));
    assert_eq!((quad[1].0.pos_idx, quad[1].1.pos_idx, quad[1].2.pos_idx), (0, 2, 3));
}

#[test]
fn parse_index_line_rejects_short_and_bad_lines() {
    assert!(ResourceParser::parse_index_line("f 1 2").is_err());
    assert!(ResourceParser::parse_index_line("f 1 2 x").is_err());
}

#[test]
fn model_builder_welds_shared_bundles() {
    let mut mb = ModelBuilder::new();
    mb.add_position(Vec3::new(0, 0, 0));
    mb.add_position(Vec3::new(1, 0, 0));
    mb.add_position(Vec3::new(1, 1, 0));
    mb.add_position(Vec3::new(0, 1, 0));
    mb.add_material(String::from("stone"));
    let b = |p: i32| IndexBundle { pos_idx: p, tex_idx: 0, nor_idx: 0 };
    mb.add_indices(b(0), b(1), b(2));
    mb.add_indices(b(0), b(2), b(3));
    let model = mb.build();
    assert_eq!(model.triangles.len(), 2);
    assert_eq!(model.indices.len(), 6);
    assert_eq!(model.positions.len(), 4, "shared corners are welded");
    assert_eq!(model.positions[0], Vec3::new(0, 0, 0));
    assert_eq!(model.positions[3], Vec3::new(0, 1, 0));
    let t0 = &model.triangles[0];
    let t1 = &model.triangles[1];
    assert_eq!((t0.p0, t0.p1, t0.p2), (0, 1, 2));
    assert_eq!((t1.p0, t1.p1, t1.p2), (0, 2, 3));
    assert_eq!(t0.mat_idx, 0);
    assert_eq!(model.materials, vec![String::from("stone")]);
    assert!(model.bvh.is_none());
}

#[test]
fn model_builder_negative_indices_and_normals() {
    let mut mb = ModelBuilder::new();
    mb.add_position(Vec3::new(0, 0, 0));
    mb.add_position(Vec3::new(2, 0, 0));
    mb.add_position(Vec3::new(0, 2, 0));
    mb.add_normal(Vec3::new(0, 0, 1));
    let b = |p: i32| IndexBundle { pos_idx: p, tex_idx: 0, nor_idx: -1 };
    // relative indices count back from the end of each array
    mb.add_indices(b(-3), b(-2), b(-1));
    let model = mb.build();
    assert_eq!(model.triangles.len(), 1);
    assert_eq!(model.positions.len(), 3);
    assert!(model.normals.is_some());
    assert_eq!(model.normals.as_ref().unwrap().len(), 3, "one normal slot per welded vertex");
    assert!(model.tex_coords.is_none());
}

#[test]
fn material_bookkeeping() {
    let mut mb = ModelBuilder::new();
    mb.add_material_lib(String::from("scene.mtl"));
    mb.add_material_lib(String::from("scene.mtl"));
    mb.add_material_lib(String::from("extra.mtl"));
    assert_eq!(mb.material_libs.len(), 2, "libraries are recorded once");
    mb.add_material(String::from("stone"));
    assert_eq!(mb.get_current_mat(), 0);
    mb.add_material(String::from("wood"));
    assert_eq!(mb.get_current_mat(), 1);
    mb.add_material(String::from("stone"));
    assert_eq!(mb.get_current_mat(), 0, "a known material keeps its index");
    assert_eq!(mb.materials.len(), 2);
}

#[test]
fn model_build_bvh_reorders_in_place() {
    let mut mb = ModelBuilder::new();
    for p in [
        Vec3::new(-1000, 0, 0),
        Vec3::new(-990, 10, 0),
        Vec3::new(-990, 0, 10),
        Vec3::new(1000, 0, 0),
        Vec3::new(1010, 10, 0),
        Vec3::new(1010, 0, 10),
    ] {
        mb.add_position(p);
    }
    let b = |p: i32| IndexBundle { pos_idx: p, tex_idx: 0, nor_idx: 0 };
    mb.add_indices(b(0), b(1), b(2));
    mb.add_indices(b(3), b(4), b(5));
    let mut model = mb.build();
    let before = model.triangles.clone();
    model.build_bvh();
    let bvh = model.get_bvh().expect("tree built");
    assert!(bvh.data().len() >= 2);
    let mut a = before;
    let mut b2 = model.triangles.clone();
    a.sort_by_key(|t| (t.p0, t.p1, t.p2, t.mat_idx));
    b2.sort_by_key(|t| (t.p0, t.p1, t.p2, t.mat_idx));
    assert_eq!(a, b2, "the same triangles, only reordered");
}

#[test]
fn split_index_line_splits_both_levels() {
    let pieces = ResourceParser::split_index_line("f 1/2/3 4//6");
    assert_eq!(pieces.len(), 3);
    assert_eq!(pieces[0], vec!["f"]);
    assert_eq!(pieces[1], vec!["1", "2", "3"]);
    assert_eq!(pieces[2], vec!["4", "", "6"]);
}
