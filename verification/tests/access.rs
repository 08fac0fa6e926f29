use std::rc::Rc;

use thriller_core::{
    AccessMap, AccessMatrix, AccessOffset, IterationBound, IterationVar, ThrillerError,
};

fn ivar(name: &str, lower: usize, upper: usize, id: usize) -> Rc<IterationVar> {
    Rc::new(IterationVar::new(
        name,
        (IterationBound::Fixed(lower), IterationBound::Fixed(upper)),
        id,
    ))
}

#[test]
fn loop_of_depth_one_wraps_body() {
    let mut map = AccessMap::new(1, vec![1]);
    map.add_iter_var(ivar("i", 0, 10, 0));
    let code = map.gen_loop_access(String::from("X;\n")).unwrap();
    assert_eq!(code, "for(int i = 0; i < 10; i++) {\n    X;\n}\n");
}

#[test]
fn loop_depth_mismatch_is_reported() {
    let mut map = AccessMap::new(2, vec![1, 1]);
    map.add_iter_var(ivar("i", 0, 10, 0));
    let r = map.gen_loop_access(String::from("X;\n"));
    assert_eq!(r, Err(ThrillerError::LoopMisMatch));
}

#[test]
fn nested_loops_follow_declaration_order() {
    let mut map = AccessMap::new(2, vec![2, 2]);
    map.add_iter_vars(vec![ivar("i1", 0, 10, 0), ivar("i2", 5, 123, 1)]);
    let code = map.gen_loop_access(String::from("a;\r\nb;")).unwrap();
    assert_eq!(
        code,
        "for(int i1 = 0; i1 < 10; i1++) {\n    for(int i2 = 5; i2 < 123; i2++) {\n        a;\n        b;\n    }\n}\n"
    );
}

#[test]
fn emit_access_omits_zero_terms() {
    let mut map = AccessMap::new(3, vec![2, 2, 2]);
    map.add_iter_vars(vec![ivar("i1", 0, 10, 0), ivar("i2", 0, 10, 1), ivar("i3", 0, 10, 2)]);
    map.add_access_matrix(AccessMatrix(vec![vec![1, 0, 0], vec![0, 0, 2], vec![0, 0, 0]]));
    map.add_access_offset(AccessOffset(vec![0, 7, 0]));
    let access = map.emit_access(0).unwrap();
    assert_eq!(access, vec!["1 * i1".to_string(), "2 * i3 + 7".to_string(), String::new()]);
    assert_eq!(map.emit_access(1), Err(ThrillerError::InvalidAccessPattern));
}

#[test]
fn brace_pairs_equal_the_loop_depth() {
    for depth in 0..=8usize {
        let mut map = AccessMap::new(depth, vec![1; depth]);
        for level in 0..depth {
            map.add_iter_var(ivar(&format!("i{}", level), 0, level + 2, level));
        }
        let code = map.gen_loop_access(String::from("X;\n")).unwrap();
        assert_eq!(code.matches('{').count(), depth);
        assert_eq!(code.matches('}').count(), depth);
        let lines: Vec<&str> = code.lines().collect();
        assert_eq!(lines.len(), 2 * depth + 1);
        for level in 0..depth {
            let header = format!(
                "{}for(int i{} = 0; i{} < {}; i{}++) {{",
                " ".repeat(4 * level),
                level,
                level,
                level + 2,
                level
            );
            assert_eq!(lines[level], header);
            assert_eq!(lines[2 * depth - level], format!("{}}}", " ".repeat(4 * level)));
        }
        assert_eq!(lines[depth], format!("{}X;", " ".repeat(4 * depth)));
    }
}

#[test]
fn mismatch_in_either_direction() {
    let map = AccessMap::new(1, vec![1]);
    assert_eq!(map.gen_loop_access(String::from("X;\n")), Err(ThrillerError::LoopMisMatch));
    let mut map = AccessMap::new(0, vec![]);
    assert_eq!(map.gen_loop_access(String::from("X;\nY;")).unwrap(), "X;\nY;\n");
    map.add_iter_var(ivar("i", 0, 1, 0));
    assert_eq!(map.gen_loop_access(String::from("X;\n")), Err(ThrillerError::LoopMisMatch));
}

#[test]
fn access_that_cannot_be_written() {
    let mut map = AccessMap::new(1, vec![1]);
    map.add_iter_var(ivar("i", 0, 4, 0));
    // a matrix without offsets
    map.add_access_matrix(AccessMatrix(vec![vec![1]]));
    assert_eq!(map.emit_access(0), Err(ThrillerError::InvalidAccessPattern));
    // fewer offsets than rows
    map.add_access_offset(AccessOffset(vec![]));
    assert_eq!(map.emit_access(0), Err(ThrillerError::InvalidAccessPattern));
    // a row with more columns than there are variables, zero though they are
    let mut map = AccessMap::new(1, vec![1]);
    map.add_iter_var(ivar("i", 0, 4, 0));
    map.add_access_matrix(AccessMatrix(vec![vec![1, 0]]));
    map.add_access_offset(AccessOffset(vec![0]));
    assert_eq!(map.emit_access(0), Err(ThrillerError::InvalidAccessPattern));
    // fewer columns than variables, and more offsets than rows, are in order
    let mut map = AccessMap::new(2, vec![1, 1]);
    map.add_iter_vars(vec![ivar("i", 0, 4, 0), ivar("j", 0, 4, 1)]);
    map.add_access_matrix(AccessMatrix(vec![vec![3], vec![]]));
    map.add_access_offset(AccessOffset(vec![0, 2, 9]));
    assert_eq!(map.emit_access(0).unwrap(), vec!["3 * i", " + 2"]);
    // no rows, no expressions
    map.add_access_matrix(AccessMatrix(vec![]));
    map.add_access_offset(AccessOffset(vec![]));
    assert_eq!(map.emit_access(1).unwrap(), Vec::<String>::new());
}

#[test]
fn terms_stand_one_behind_the_other() {
    let mut map = AccessMap::new(2, vec![1, 1]);
    map.add_iter_vars(vec![ivar("i", 0, 4, 0), ivar("j", 0, 4, 1)]);
    map.add_access_matrix(AccessMatrix(vec![vec![2, 30]]));
    map.add_access_offset(AccessOffset(vec![11]));
    assert_eq!(map.emit_access(0).unwrap(), vec!["2 * i30 * j + 11"]);
}
