use rusttracker::mesh::{face_triangles, group_material_half_steps, parse_obj, parse_obj_line, ObjLine};

fn chars(s: &str) -> Vec<char> {
    s.chars().collect()
}

#[test]
fn blank_and_comment_lines_are_skipped() {
    assert!(matches!(parse_obj_line(""), ObjLine::Skip));
    assert!(matches!(parse_obj_line("   \t"), ObjLine::Skip));
    assert!(matches!(parse_obj_line("  # a comment"), ObjLine::Skip));
}

#[test]
fn vertex_lines_give_their_words() {
    match parse_obj_line("  v 1.0  -2.5 3 ") {
        ObjLine::Position(w) => assert_eq!(w, vec!["1.0", "-2.5", "3"]),
        _ => panic!("expected a position"),
    }
    match parse_obj_line("vn 0 1 0") {
        ObjLine::Normal(w) => assert_eq!(w, vec!["0", "1", "0"]),
        _ => panic!("expected a normal"),
    }
}

#[test]
fn group_names_are_trimmed() {
    match parse_obj_line("g   knob  ") {
        ObjLine::Group(g) => assert_eq!(g, "knob"),
        _ => panic!("expected a group"),
    }
}

#[test]
fn keywords_need_a_following_space() {
    assert!(matches!(parse_obj_line("v"), ObjLine::Other));
    assert!(matches!(parse_obj_line("vt 0.5 0.5"), ObjLine::Other));
    assert!(matches!(parse_obj_line("usemtl red"), ObjLine::Other));
}

#[test]
fn quads_are_fanned_into_two_triangles() {
    match parse_obj_line("f 1/1/1 2/2/2 3/3/3 4/4/4") {
        ObjLine::Face(t) => assert_eq!(
            t,
            vec![((0, 0), (1, 1), (2, 2)), ((0, 0), (2, 2), (3, 3))]
        ),
        _ => panic!("expected a face"),
    }
}

#[test]
fn corners_without_normals_use_the_vertex() {
    let toks = vec![chars("1//2"), chars("3"), chars("x"), chars("4/7")];
    assert_eq!(face_triangles(&toks), vec![((0, 1), (2, 2), (3, 3))]);
}

#[test]
fn unreadable_corners_are_dropped() {
    let toks = vec![chars("0"), chars("1"), chars("2")];
    assert_eq!(face_triangles(&toks), Vec::new());
    let toks = vec![chars("+2"), chars("3/1/0"), chars("4"), chars("5")];
    assert_eq!(face_triangles(&toks), vec![((1, 1), (3, 3), (4, 4))]);
}

#[test]
fn whole_files_are_read_line_by_line() {
    let lines = parse_obj("# cube\r\nv 0 0 0\nv 1 0 0\nv 0 1 0\ng floor\nf 1 2 3\n");
    assert_eq!(lines.len(), 6);
    assert!(matches!(lines[0], ObjLine::Skip));
    assert!(matches!(&lines[1], ObjLine::Position(w) if w.len() == 3));
    assert!(matches!(&lines[4], ObjLine::Group(g) if g == "floor"));
    assert!(matches!(&lines[5], ObjLine::Face(t) if t == &vec![((0, 0), (1, 1), (2, 2))]));
}

#[test]
fn group_materials_in_half_steps() {
    assert_eq!(group_material_half_steps("floor"), Some(0));
    assert_eq!(group_material_half_steps("knob"), Some(12));
    assert_eq!(group_material_half_steps("rim"), Some(15));
    assert_eq!(group_material_half_steps("spire"), Some(25));
    assert_eq!(group_material_half_steps("glass"), Some(8));
    assert_eq!(group_material_half_steps("Floor"), None);
    assert_eq!(group_material_half_steps(""), None);
}
