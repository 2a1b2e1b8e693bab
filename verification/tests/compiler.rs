use csg2mged::compile;
use csg2mged::CsgError;
use csg2mged::gen::CSGOperation;
use csg2mged::gen::generate_mged_code;

fn run(src: &str) -> String {
    String::from_utf8(compile(src.as_bytes()).expect("compile failed")).expect("ascii")
}

#[test]
fn cylinders_only_number_in_source_order() {
    let out = run("cylinder(); cylinder();");
    assert_eq!(
        out,
        "in cylinder0.s trc 0 0 0 0 0 1 1 1\n\
         in cylinder1.s trc 0 0 0 0 0 1 1 1\n\
         comb comb0.c u cylinder0.s u cylinder1.s\n"
    );
}

#[test]
fn difference_prefixes_first_child_with_u_then_minus() {
    let out = run("difference { cylinder(); cylinder(); cylinder(); }");
    assert_eq!(
        out,
        "in cylinder0.s trc 0 0 0 0 0 1 1 1\n\
         in cylinder1.s trc 0 0 0 0 0 1 1 1\n\
         in cylinder2.s trc 0 0 0 0 0 1 1 1\n\
         comb comb1.c u cylinder0.s - cylinder1.s - cylinder2.s\n\
         comb comb0.c u comb1.c\n"
    );
}

#[test]
fn multmatrix_emits_one_arced_statement() {
    let out = run(
        "multmatrix([[1, 0, 0, 5], [0, 1, 0, 0], [0, 0, 1, 0], [0, 0, 0, 1]]) { cylinder(); }",
    );
    assert_eq!(
        out,
        "in cylinder0.s trc 0 0 0 0 0 1 1 1\n\
         comb comb1.c u cylinder0.s\n\
         comb comb0.c u comb1.c\n\
         arced comb0.c/comb1.c matrix rmul 1 0 0 5 0 1 0 0 0 0 1 0 0 0 0 1\n"
    );
    assert_eq!(out.matches("arced").count(), 1);
}

#[test]
fn generation_is_deterministic_across_passes() {
    let src = "difference { cylinder(h = 2); group { cylinder(); } }";
    let first = compile(src.as_bytes()).unwrap();
    let second = compile(src.as_bytes()).unwrap();
    assert_eq!(first, second);
}

#[test]
fn nested_groups_number_combinations_outer_to_inner() {
    let out = run("group { group { cylinder(); } }");
    assert_eq!(
        out,
        "in cylinder0.s trc 0 0 0 0 0 1 1 1\n\
         comb comb2.c u cylinder0.s\n\
         comb comb1.c u comb2.c\n\
         comb comb0.c u comb1.c\n"
    );
}

#[test]
fn centered_cylinder_offsets_z_by_minus_half_height() {
    let out = run("cylinder(h = 10, center = true);");
    assert_eq!(
        out,
        "in cylinder0.s trc 0 0 -5 0 0 10 1 1\ncomb comb0.c u cylinder0.s\n"
    );
}

#[test]
fn empty_input_yields_one_empty_union_combination() {
    let out = run("  \n\t ");
    assert_eq!(out, "comb comb0.c\n");
    let out2 = run("");
    assert_eq!(out2, "comb comb0.c\n");
}

#[test]
fn unrecognized_identifier_is_dropped_silently() {
    let out = run("sphere(); cylinder();");
    assert!(!out.contains("sphere"));
    assert_eq!(
        out,
        "in cylinder0.s trc 0 0 0 0 0 1 1 1\ncomb comb0.c u cylinder0.s\n"
    );
}

#[test]
fn fractional_height_is_halved_exactly() {
    let out = run("cylinder(h = 10.5, center = true);");
    assert_eq!(
        out,
        "in cylinder0.s trc 0 0 -5.25 0 0 10.5 1 1\ncomb comb0.c u cylinder0.s\n"
    );
}

#[test]
fn scalars_are_printed_canonically() {
    let out = run("cylinder(h = 0.50, r1 = 007, r2 = 2.0);");
    assert_eq!(
        out,
        "in cylinder0.s trc 0 0 0 0 0 0.5 7 2\ncomb comb0.c u cylinder0.s\n"
    );
}

#[test]
fn negative_zero_height_keeps_its_sign_but_not_its_offset() {
    let out = run("cylinder(h = -0, center = true);");
    assert_eq!(
        out,
        "in cylinder0.s trc 0 0 0 0 0 -0 1 1\ncomb comb0.c u cylinder0.s\n"
    );
}

#[test]
fn unrecognized_argument_names_are_ignored() {
    let out = run("cylinder($fn = 0, wat = 3, h = 2);");
    assert_eq!(
        out,
        "in cylinder0.s trc 0 0 0 0 0 2 1 1\ncomb comb0.c u cylinder0.s\n"
    );
}

#[test]
fn empty_group_emits_empty_child_combination() {
    let out = run("group { }");
    assert_eq!(out, "comb comb1.c\ncomb comb0.c u comb1.c\n");
}

#[test]
fn syntax_error_reports_first_unmatched_position() {
    assert_eq!(
        compile(b"cylinder(").unwrap_err(),
        CsgError::SyntaxError { pos: 9 }
    );
    assert_eq!(
        compile(b"}").unwrap_err(),
        CsgError::SyntaxError { pos: 0 }
    );
}

#[test]
fn wrongly_typed_argument_is_a_literal_parse_error() {
    assert_eq!(
        compile(b"cylinder(h = true);").unwrap_err(),
        CsgError::LiteralParseError
    );
    assert_eq!(
        compile(b"cylinder(center = 1.5);").unwrap_err(),
        CsgError::LiteralParseError
    );
}

#[test]
fn broken_shapes_are_structural_errors() {
    // A primitive argument without a name.
    assert_eq!(
        compile(b"cylinder(5);").unwrap_err(),
        CsgError::StructuralError
    );
    // A transform whose matrix is not 4x4.
    assert_eq!(
        compile(b"multmatrix([[1, 0, 0, 0], [0, 1, 0, 0], [0, 0, 1, 0]]) { }").unwrap_err(),
        CsgError::StructuralError
    );
    // A transform without a child block.
    assert_eq!(
        compile(b"multmatrix([[1, 0, 0, 0], [0, 1, 0, 0], [0, 0, 1, 0], [0, 0, 0, 1]]);")
            .unwrap_err(),
        CsgError::StructuralError
    );
}

#[test]
fn intersection_is_an_unsupported_operation() {
    let mut solid: u64 = 0;
    let mut comb: u64 = 0;
    let ast = Vec::new();
    assert_eq!(
        generate_mged_code(&mut solid, &mut comb, CSGOperation::Intersection, &ast).unwrap_err(),
        CsgError::UnsupportedOperation
    );
    assert_eq!(solid, 0);
    assert_eq!(comb, 0);
}

#[test]
fn counters_are_shared_across_sibling_scopes() {
    let out = run("group { cylinder(); } difference { cylinder(); }");
    assert_eq!(
        out,
        "in cylinder0.s trc 0 0 0 0 0 1 1 1\n\
         comb comb1.c u cylinder0.s\n\
         in cylinder1.s trc 0 0 0 0 0 1 1 1\n\
         comb comb2.c u cylinder1.s\n\
         comb comb0.c u comb1.c u comb2.c\n"
    );
}

#[test]
fn nested_transform_inside_difference() {
    let out = run(
        "difference { cylinder(h = 4); \
         multmatrix([[1, 0, 0, 0], [0, 1, 0, 0], [0, 0, 1, 0], [0, 0, 0, 1]]) { \
         cylinder(r1 = 2, r2 = 3); } }",
    );
    assert_eq!(
        out,
        "in cylinder0.s trc 0 0 0 0 0 4 1 1\n\
         in cylinder1.s trc 0 0 0 0 0 1 2 3\n\
         comb comb2.c u cylinder1.s\n\
         comb comb1.c u cylinder0.s - comb2.c\n\
         arced comb1.c/comb2.c matrix rmul 1 0 0 0 0 1 0 0 0 0 1 0 0 0 0 1\n\
         comb comb0.c u comb1.c\n"
    );
}
