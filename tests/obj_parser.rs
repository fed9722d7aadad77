use obj_terminal_viewer::obj_parser::{
    all_equal, pooled_triangles, FaceTriangle, LineProblem, NormalIndices, ObjDocument, ObjError,
    ObjParser,
};
use obj_terminal_viewer::obj_syntax::{
    check_float_literal, parse_face_element_vertex_string, parse_index, split_bytes,
};
use obj_terminal_viewer::unique_list::UniqueList;

fn lines(text: &[&str]) -> Vec<String> {
    text.iter().map(|l| l.to_string()).collect()
}

fn parse(text: &[&str]) -> Result<ObjDocument, ObjError> {
    ObjParser::parse_lines(&lines(text))
}

fn refusal(text: &[&str]) -> (LineProblem, usize, String) {
    match parse(text) {
        Err(ObjError::Line { problem, line_number, line }) => (problem, line_number, line),
        other => panic!("expected a refused line, got {other:?}"),
    }
}

fn triangle(p1: usize, p2: usize, p3: usize) -> FaceTriangle {
    FaceTriangle { p1, p2, p3, normals: None }
}

const SQUARE: [&str; 5] = ["v 0 0 0", "v 1 0 0", "v 1 1 0", "v 0 1 0", "f 1 2 3 4"];

#[test]
fn quad_splits_into_two_triangles() {
    let document = parse(&SQUARE).unwrap();
    assert_eq!(document.triangles, vec![triangle(0, 1, 2), triangle(2, 3, 0)]);
    assert_eq!(document.vertices.len(), 4);
    assert_eq!(document.vertices[1].x, b"1".to_vec());
    assert_eq!(document.vertices[1].y, b"0".to_vec());
}

#[test]
fn vertex_with_two_numbers_is_refused_at_its_line() {
    let (problem, line_number, line) = refusal(&["# a comment", "v 1 2 3", "v 1 2", "f 1 1 1"]);
    assert_eq!(problem, LineProblem::VertexArity);
    assert_eq!(line_number, 3);
    assert_eq!(line, "v 1 2");
}

#[test]
fn face_with_vertex_zero_is_refused() {
    let (problem, line_number, _) = refusal(&["v 0 0 0", "v 1 0 0", "v 0 1 0", "f 0 1 2"]);
    assert_eq!(problem, LineProblem::VertexIndexOutOfRange);
    assert_eq!(line_number, 4);
}

#[test]
fn face_past_the_vertices_is_refused() {
    let (problem, line_number, _) = refusal(&["v 0 0 0", "v 1 0 0", "v 0 1 0", "f 1 2 4"]);
    assert_eq!(problem, LineProblem::VertexIndexOutOfRange);
    assert_eq!(line_number, 4);
}

#[test]
fn face_before_its_vertex_is_refused() {
    let (problem, line_number, _) = refusal(&["v 0 0 0", "v 1 0 0", "f 1 2 3", "v 0 1 0"]);
    assert_eq!(problem, LineProblem::VertexIndexOutOfRange);
    assert_eq!(line_number, 3);
}

#[test]
fn parsing_twice_gives_the_same_document() {
    let text = [
        "v 0.5 -1 2e1",
        "v 1 0 0",
        "v 0 1 0",
        "v 0.5 -1 2e1",
        "vn 0 0 1",
        "f 1//1 2//1 3//1",
        "f 4 2 3",
    ];
    let first = parse(&text).unwrap();
    let second = parse(&text).unwrap();
    assert_eq!(first.triangles, second.triangles);
    assert_eq!(first.vertices.len(), second.vertices.len());
    for (a, b) in first.vertices.iter().zip(second.vertices.iter()) {
        assert_eq!((&a.x, &a.y, &a.z), (&b.x, &b.y, &b.z));
    }
    assert_eq!(first.normals.len(), 1);
}

#[test]
fn vertex_normals_are_kept() {
    let document =
        parse(&["v 0 0 0", "v 1 0 0", "v 0 1 0", "vn 0 0 1", "vn 0 0 -1", "f 1/7/2 2/8/1 3//2"]).unwrap();
    assert_eq!(
        document.triangles,
        vec![FaceTriangle { p1: 0, p2: 1, p3: 2, normals: Some(NormalIndices { n1: 1, n2: 0, n3: 1 }) }]
    );
}

#[test]
fn mixed_vertex_normals_are_refused() {
    let (problem, _, _) = refusal(&["v 0 0 0", "v 1 0 0", "v 0 1 0", "vn 0 0 1", "f 1//1 2 3"]);
    assert_eq!(problem, LineProblem::MixedVertexNormals);
}

#[test]
fn normal_out_of_range_is_refused() {
    let (problem, _, _) = refusal(&["v 0 0 0", "v 1 0 0", "v 0 1 0", "vn 0 0 1", "f 1//1 2//2 3//1"]);
    assert_eq!(problem, LineProblem::NormalIndexOutOfRange);
}

#[test]
fn unreadable_numbers_are_refused() {
    assert_eq!(refusal(&["v 1 x 3"]).0, LineProblem::VertexNumber);
    assert_eq!(refusal(&["vn 1 2"]).0, LineProblem::NormalArity);
    assert_eq!(refusal(&["vn 1 2 3.4.5"]).0, LineProblem::NormalNumber);
    assert_eq!(refusal(&["v 0 0 0", "f a 1 1"]).0, LineProblem::MissingVertexIndex);
}

#[test]
fn face_sizes_are_checked() {
    let mut text = SQUARE.to_vec();
    text[4] = "f 1 2 3 4 1";
    assert_eq!(refusal(&text).0, LineProblem::TooManyFaceVertices);
    text[4] = "f 1 2";
    assert_eq!(refusal(&text).0, LineProblem::TooFewFaceVertices);
}

#[test]
fn empty_and_faceless_files_are_refused() {
    assert!(matches!(parse(&[]), Err(ObjError::NoObjData)));
    assert!(matches!(parse(&["# only", "", "o name", "vt 0 0"]), Err(ObjError::NoObjData)));
    assert!(matches!(parse(&["v 1 2 3"]), Err(ObjError::NoTriangles)));
}

#[test]
fn blank_runs_and_unknown_directives_are_tolerated() {
    let document = parse(&["v   0 0 0  ", "  v 1 0 0", "v 0 1 0", "s off", "f", "f  1 2 3 "]).unwrap();
    assert_eq!(document.triangles, vec![triangle(0, 1, 2)]);
}

#[test]
fn float_literals_follow_the_parse_grammar() {
    for good in ["1", "-1", "+2.5", "1.", ".5", "1e5", "1E-5", "-.5e+3", "inf", "-Infinity", "NaN", "0007"] {
        assert!(check_float_literal(good.as_bytes()), "{good}");
        assert!(good.parse::<f32>().is_ok(), "{good}");
    }
    for bad in ["", ".", "e5", "1e", "1.2.3", "--1", "1,5", "infinit", "0x10", " 1", "1e+"] {
        assert!(!check_float_literal(bad.as_bytes()), "{bad}");
        assert!(bad.parse::<f32>().is_err(), "{bad}");
    }
}

#[test]
fn indices_read_as_usize() {
    assert_eq!(parse_index(b"42"), Some(42));
    assert_eq!(parse_index(b"+7"), Some(7));
    assert_eq!(parse_index(b"0"), Some(0));
    assert_eq!(parse_index(b"18446744073709551615"), Some(usize::MAX));
    assert_eq!(parse_index(b"18446744073709551616"), None);
    assert_eq!(parse_index(b"-1"), None);
    assert_eq!(parse_index(b"+"), None);
    assert_eq!(parse_index(b""), None);
    assert_eq!(parse_index(b"4a"), None);
}

#[test]
fn face_elements_read_three_numbers() {
    assert_eq!(parse_face_element_vertex_string(b"3/4/5"), [Some(3), Some(4), Some(5)]);
    assert_eq!(parse_face_element_vertex_string(b"3"), [Some(3), None, None]);
    assert_eq!(parse_face_element_vertex_string(b"3//4"), [Some(3), None, Some(4)]);
    assert_eq!(parse_face_element_vertex_string(b"3//"), [Some(3), None, None]);
    assert_eq!(parse_face_element_vertex_string(b"x/2/y/9"), [None, Some(2), None]);
}

#[test]
fn split_keeps_or_drops_empty_pieces() {
    assert_eq!(split_bytes(b"a//b", b'/', true), vec![b"a".to_vec(), vec![], b"b".to_vec()]);
    assert_eq!(split_bytes(b"  a  b ", b' ', false), vec![b"a".to_vec(), b"b".to_vec()]);
    assert_eq!(split_bytes(b"", b'/', true), vec![Vec::<u8>::new()]);
}

#[test]
fn triangles_move_into_the_vertex_pool() {
    let document = parse(&["v 1 1 1", "v 0 0 0", "v 1.0 1 1", "v 2 2 2", "f 1 2 4", "f 3 4 2"]).unwrap();
    let mut pool: UniqueList<usize> = UniqueList::new();
    let keys: [&[u8]; 4] = [b"1", b"0", b"1", b"2"];
    for (i, key) in keys.iter().enumerate() {
        pool.add_if_unique(i, key.to_vec());
    }
    assert_eq!(pool.items(), &vec![1, 0, 3]);
    let pooled = pooled_triangles(&document.triangles, &pool).unwrap();
    assert_eq!(pooled, vec![triangle(1, 0, 2), triangle(1, 2, 0)]);
    let mut short_pool: UniqueList<usize> = UniqueList::new();
    short_pool.add_if_unique(0, vec![0]);
    assert_eq!(pooled_triangles(&document.triangles, &short_pool), None);
}

#[test]
fn all_equal_compares_with_the_first() {
    assert_eq!(all_equal::<u8>(&[]), None);
    assert_eq!(all_equal(&[3, 3, 3]), Some(true));
    assert_eq!(all_equal(&[3, 3, 4]), Some(false));
    assert_eq!(all_equal(&["a"]), Some(true));
}
