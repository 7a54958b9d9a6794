use obj_mesh::fan::push_fan;
use obj_mesh::statement::{read_index, read_reference, read_statement};
use obj_mesh::text::split;
use obj_mesh::{FaceTooLarge, Mesh, ParseError};

fn chars(text: &str) -> Vec<char> {
    text.chars().collect()
}

fn strings(parts: Vec<&[char]>) -> Vec<String> {
    parts.into_iter().map(|part| part.iter().collect()).collect()
}

/// A mesh of `count` vertices and the indices of one segment.
fn sample(count: usize) -> Mesh {
    let mut mesh = Mesh::new();
    for _ in 0..count {
        assert_eq!(read_statement(&mut mesh, 1, &chars("v 1 2 3"), 30), Ok(None));
    }
    if count >= 1 {
        assert_eq!(read_statement(&mut mesh, 1, &chars("l 1 1"), 30), Ok(None));
    }
    mesh
}

#[test]
fn fan_of_a_polygon() {
    let mut indices: Vec<u32> = vec![9, 9];
    push_fan(&[], &mut indices);
    push_fan(&[5], &mut indices);
    push_fan(&[5, 6], &mut indices);
    assert_eq!(indices, vec![9, 9]);
    push_fan(&[5, 6, 7], &mut indices);
    assert_eq!(indices, vec![9, 9, 5, 6, 7]);
    let mut indices: Vec<u32> = Vec::new();
    push_fan(&[10, 20, 30, 40], &mut indices);
    assert_eq!(indices, vec![10, 20, 30, 10, 30, 40]);
    let mut indices: Vec<u32> = Vec::new();
    push_fan(&[4, 3, 2, 1, 0, 4], &mut indices);
    assert_eq!(indices, vec![4, 3, 2, 4, 2, 1, 4, 1, 0, 4, 0, 4]);
}

#[test]
fn fields_of_a_reference() {
    assert_eq!(strings(split(&chars(""), '/')), vec![""]);
    assert_eq!(strings(split(&chars("1"), '/')), vec!["1"]);
    assert_eq!(strings(split(&chars("1/2"), '/')), vec!["1", "2"]);
    assert_eq!(strings(split(&chars("1/2/3"), '/')), vec!["1", "2", "3"]);
    assert_eq!(strings(split(&chars("1//3"), '/')), vec!["1", "", "3"]);
    assert_eq!(strings(split(&chars("/"), '/')), vec!["", ""]);
    assert_eq!(strings(split(&chars("1/"), '/')), vec!["1", ""]);
    assert_eq!(strings(split(&chars("/1"), '/')), vec!["", "1"]);
    assert_eq!(strings(split(&chars("a/b/c/d/"), '/')), vec!["a", "b", "c", "d", ""]);
    assert_eq!(strings(split(&chars("a/b c"), ' ')), vec!["a/b", "c"]);
}

#[test]
fn fields_as_std_splits_them() {
    let pieces = ["", "1", "/", "23", "//", "x"];
    for a in pieces {
        for b in pieces {
            for c in pieces {
                for d in pieces {
                    let sample = format!("{}{}{}{}", a, b, c, d);
                    let expected: Vec<String> = sample.split('/').map(String::from).collect();
                    assert_eq!(strings(split(&chars(&sample), '/')), expected, "{:?}", sample);
                }
            }
        }
    }
}

#[test]
fn index_of_a_token() {
    assert_eq!(read_index(&chars("1"), 1), Some(0));
    assert_eq!(read_index(&chars("1"), 5), Some(0));
    assert_eq!(read_index(&chars("5"), 5), Some(4));
    assert_eq!(read_index(&chars("+3"), 5), Some(2));
    assert_eq!(read_index(&chars("6"), 5), None);
    assert_eq!(read_index(&chars("0"), 5), None);
    assert_eq!(read_index(&chars("1"), 0), None);
    assert_eq!(read_index(&chars("x"), 5), None);
    assert_eq!(read_index(&chars("1/1"), 5), None);
    assert_eq!(read_index(&chars("4294967295"), usize::MAX), Some(4294967294));
    assert_eq!(read_index(&chars("4294967296"), usize::MAX), None);
}

#[test]
fn index_of_a_reference() {
    assert_eq!(read_reference(&chars("1"), 3), Some(0));
    assert_eq!(read_reference(&chars("3"), 3), Some(2));
    assert_eq!(read_reference(&chars("2/7"), 3), Some(1));
    assert_eq!(read_reference(&chars("2/7/9"), 3), Some(1));
    assert_eq!(read_reference(&chars("2/0/0"), 3), Some(1));
    assert_eq!(read_reference(&chars("2/7/9/x"), 3), Some(1));
    assert_eq!(read_reference(&chars("2/7/x/9"), 3), Some(1));
    assert_eq!(read_reference(&chars("4"), 3), None);
    assert_eq!(read_reference(&chars("0"), 3), None);
    assert_eq!(read_reference(&chars("0/1/1"), 3), None);
    assert_eq!(read_reference(&chars("2//9"), 3), None);
    assert_eq!(read_reference(&chars("2/"), 3), None);
    assert_eq!(read_reference(&chars("2/7/"), 3), None);
    assert_eq!(read_reference(&chars("2/x"), 3), None);
    assert_eq!(read_reference(&chars("2/x/9/9"), 3), None);
    assert_eq!(read_reference(&chars("2/7/x"), 3), None);
    assert_eq!(read_reference(&chars("/7"), 3), None);
    assert_eq!(read_reference(&chars(""), 3), None);
}

#[test]
fn line_that_is_no_statement_leaves_the_mesh() {
    let before = sample(3);
    for line in ["", "   ", "# f 1 2 3", "vt 0.5 0.5", "g group1", "vn x", "o v", "ff 1 2 3", "V 1"] {
        let mut mesh = sample(3);
        assert_eq!(read_statement(&mut mesh, 8, &chars(line), 30), Ok(None));
        assert_eq!(mesh, before);
    }
}

#[test]
fn refused_statement_leaves_the_mesh() {
    let before = sample(3);
    let mut mesh = sample(3);
    assert_eq!(
        read_statement(&mut mesh, 8, &chars("v 1 2 z"), 30),
        Err(ParseError::MalformedNumber { line: 8, token: String::from("z") })
    );
    assert_eq!(mesh, before);
    assert_eq!(
        read_statement(&mut mesh, 9, &chars("l 3 4"), 30),
        Err(ParseError::MalformedIndex { line: 9, token: String::from("4") })
    );
    assert_eq!(mesh, before);
    assert_eq!(
        read_statement(&mut mesh, 10, &chars("f 1 2 3 1 2 0"), 30),
        Err(ParseError::MalformedIndex { line: 10, token: String::from("0") })
    );
    assert_eq!(mesh, before);
    assert_eq!(
        read_statement(&mut mesh, 11, &chars("f 1 2"), 30),
        Err(ParseError::IncompleteStatement { line: 11 })
    );
    assert_eq!(mesh, before);
}

#[test]
fn accepted_statement_adds_to_the_mesh() {
    let mut mesh = sample(3);
    assert_eq!(mesh.vertices.len(), 3);
    assert_eq!(mesh.indices, vec![0, 0]);
    assert_eq!(read_statement(&mut mesh, 1, &chars("v 9 8 7 6"), 30), Ok(None));
    assert_eq!(mesh.vertices.len(), 4);
    assert_eq!(mesh.vertices[3].pos[0].as_str(), "9");
    assert_eq!(mesh.vertices[3].uvw[0].as_str(), "6");
    assert_eq!(mesh.vertices[3].uvw[2].as_str(), "1");
    assert_eq!(mesh.indices, vec![0, 0]);
    assert_eq!(read_statement(&mut mesh, 2, &chars("l 4 2"), 30), Ok(None));
    assert_eq!(mesh.indices, vec![0, 0, 3, 1]);
    assert_eq!(read_statement(&mut mesh, 3, &chars("f 4 3 2 1"), 30), Ok(None));
    assert_eq!(mesh.indices, vec![0, 0, 3, 1, 3, 2, 1, 3, 1, 0]);
    assert_eq!(
        read_statement(&mut mesh, 4, &chars("f 4 3 2 1"), 3),
        Ok(Some(FaceTooLarge { line: 4, references: 4 }))
    );
    assert_eq!(mesh.indices, vec![0, 0, 3, 1, 3, 2, 1, 3, 1, 0, 3, 2, 1]);
    assert_eq!(mesh.vertices.len(), 4);
}
