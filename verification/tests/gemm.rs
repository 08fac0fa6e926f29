use std::rc::Rc;

use thriller_core::{
    gen_gemm, AccessMap, AccessMatrix, AccessOffset, BufType, Buffer, Convert, CopyTask, CopyType,
    DataType, Gemm, IdCounter, IterationBound, IterationVar, Layout, Operator, RegularVar, Task,
    ThrillerError, ThrillerNode, ThrillerNodeInner,
};

fn reg_node(name: &str, ids: &mut IdCounter) -> ThrillerNode {
    let buffer = Rc::new(Buffer::new(
        name,
        BufType::RegTile,
        &[64, 64],
        Layout::RowMajor,
        ids.next(),
    ));
    ThrillerNode::new(ThrillerNodeInner::Buffer(buffer), ids.next())
}

fn depth_one_map(ids: &mut IdCounter) -> AccessMap {
    let iter_var = Rc::new(IterationVar::new(
        "i",
        (IterationBound::Fixed(0), IterationBound::Fixed(10)),
        ids.next(),
    ));
    let mut access_map = AccessMap::new(1, vec![1]);
    access_map.add_iter_var(iter_var);
    access_map.add_access_matrix(AccessMatrix(vec![vec![1]]));
    access_map.add_access_matrix(AccessMatrix(vec![vec![1]]));
    access_map.add_access_offset(AccessOffset(vec![0]));
    access_map.add_access_offset(AccessOffset(vec![0]));
    access_map
}

#[test]
fn gemm_over_a_depth_one_map() {
    let mut ids = IdCounter::new();
    let access_map = depth_one_map(&mut ids);
    let node_a = reg_node("rA", &mut ids);
    let node_b = reg_node("rB", &mut ids);
    let node_acc = reg_node("rC", &mut ids);
    let gemm = Gemm::new(vec![&node_a, &node_b], &node_acc, Rc::new(access_map), ids.next());
    let code = gemm.emit().unwrap();
    assert_eq!(code, "cute::gemm(rA[1 * i + 0], rB[1 * i + 0], rC);\n");
    assert_eq!(code.matches("gemm(").count(), 1);
    assert_eq!(gemm.get_name(), "Gemm_7");

    let gemm_node = ThrillerNode::new(ThrillerNodeInner::Op(Operator::Gemm(gemm)), ids.next());
    assert_eq!(gemm_node.emit().unwrap(), "cute::gemm(rA[1 * i + 0], rB[1 * i + 0], rC);\n");
    assert_eq!(gemm_node.get_node_name(), "Gemm_7");
    assert_eq!(gemm_node.emit_inner().unwrap(), "cute::gemm(rA[1 * i + 0], rB[1 * i + 0], rC);\n");
}

#[test]
fn gemm_needs_two_inputs() {
    let mut ids = IdCounter::new();
    let node_a = reg_node("rA", &mut ids);
    let node_b = reg_node("rB", &mut ids);
    let node_c = reg_node("rC", &mut ids);
    let node_acc = reg_node("acc", &mut ids);
    let map = Rc::new(depth_one_map(&mut ids));
    let none = Gemm::new(vec![], &node_acc, map.clone(), ids.next());
    assert_eq!(none.emit(), Err(ThrillerError::WrongInputsNum));
    let one = Gemm::new(vec![&node_a], &node_acc, map.clone(), ids.next());
    assert_eq!(one.emit(), Err(ThrillerError::WrongInputsNum));
    let three = Gemm::new(vec![&node_a, &node_b, &node_c], &node_acc, map.clone(), ids.next());
    assert_eq!(three.emit(), Err(ThrillerError::WrongInputsNum));
    // the number of inputs is looked at before the access map
    let bad = Gemm::new(vec![&node_a], &node_acc, Rc::new(AccessMap::new(0, vec![])), ids.next());
    assert_eq!(bad.emit(), Err(ThrillerError::WrongInputsNum));
}

#[test]
fn gemm_without_matrices_has_no_indices() {
    let mut ids = IdCounter::new();
    let node_a = reg_node("a", &mut ids);
    let node_b = reg_node("b", &mut ids);
    let node_c = reg_node("c", &mut ids);
    let gemm = Gemm::new(
        vec![&node_a, &node_b],
        &node_c,
        Rc::new(AccessMap::new(0, vec![])),
        ids.next(),
    );
    assert_eq!(gemm.emit().unwrap(), "cute::gemm(a, b, c);\n");
}

fn three_loops(ids: &mut IdCounter) -> AccessMap {
    let mut map = AccessMap::new(3, vec![2, 2, 2]);
    for name in ["i1", "i2", "i3"] {
        map.add_iter_var(Rc::new(IterationVar::new(
            name,
            (IterationBound::Fixed(0), IterationBound::Fixed(10)),
            ids.next(),
        )));
    }
    map.add_access_matrix(AccessMatrix(vec![vec![1, 0, 0], vec![0, 0, 1]]));
    map.add_access_matrix(AccessMatrix(vec![vec![0, 0, 1], vec![0, 1, 0]]));
    map.add_access_matrix(AccessMatrix(vec![vec![1, 0, 0], vec![0, 1, 0]]));
    map.add_access_offset(AccessOffset(vec![0, 1]));
    map.add_access_offset(AccessOffset(vec![1, 0]));
    map.add_access_offset(AccessOffset(vec![0, 0]));
    map
}

#[test]
fn gemm_takes_every_offset_from_the_first_offset_vector() {
    let mut ids = IdCounter::new();
    let map = three_loops(&mut ids);
    assert_eq!(
        gen_gemm(&map).unwrap(),
        "cute::gemm([1 * i1 + 0][1 * i3 + 1], [1 * i3 + 0][1 * i2 + 1], [1 * i1 + 0][1 * i2 + 1]);\n"
    );
    let node_a = reg_node("A", &mut ids);
    let node_b = reg_node("B", &mut ids);
    let node_c = reg_node("C", &mut ids);
    let gemm = Gemm::new(vec![&node_a, &node_b], &node_c, Rc::new(map), ids.next());
    assert_eq!(
        gemm.emit().unwrap(),
        "cute::gemm(A[1 * i1 + 0][1 * i3 + 1], B[1 * i3 + 0][1 * i2 + 1], C[1 * i1 + 0][1 * i2 + 1]);\n"
    );
}

#[test]
fn gemm_indices_that_cannot_be_written() {
    let mut ids = IdCounter::new();
    // a coefficient without an iteration variable
    let mut map = depth_one_map(&mut ids);
    map.add_access_matrix(AccessMatrix(vec![vec![0, 3]]));
    assert_eq!(gen_gemm(&map), Err(ThrillerError::InvalidAccessPattern));
    // a coefficient in a row for which the first offset vector has no offset
    let mut map = depth_one_map(&mut ids);
    map.add_access_matrix(AccessMatrix(vec![vec![0], vec![2]]));
    assert_eq!(gen_gemm(&map), Err(ThrillerError::InvalidAccessPattern));
    // a coefficient in a fourth matrix
    let mut map = depth_one_map(&mut ids);
    map.add_access_matrix(AccessMatrix(vec![vec![1]]));
    map.add_access_matrix(AccessMatrix(vec![vec![1]]));
    assert_eq!(gen_gemm(&map), Err(ThrillerError::InvalidAccessPattern));
    // a coefficient without any offset vector
    let mut map = AccessMap::new(1, vec![1]);
    map.add_iter_var(Rc::new(IterationVar::new(
        "i",
        (IterationBound::Fixed(0), IterationBound::Fixed(10)),
        ids.next(),
    )));
    map.add_access_matrix(AccessMatrix(vec![vec![1]]));
    assert_eq!(gen_gemm(&map), Err(ThrillerError::InvalidAccessPattern));
    // zeros need neither variable nor offset, wherever they stand
    let mut map = depth_one_map(&mut ids);
    map.add_access_matrix(AccessMatrix(vec![vec![0, 0], vec![0]]));
    map.add_access_matrix(AccessMatrix(vec![vec![0]]));
    assert_eq!(gen_gemm(&map).unwrap(), "cute::gemm([1 * i + 0], [1 * i + 0], );\n");
}

#[test]
fn convert_emits_a_cast() {
    let mut ids = IdCounter::new();
    let src = Rc::new(Buffer::new("rA", BufType::RegTile, &[64, 64], Layout::RowMajor, ids.next()));
    let dst = Rc::new(Buffer::new("rB", BufType::RegTile, &[64, 64], Layout::RowMajor, ids.next()));
    assert!(Convert::check_compatible(&src, &dst));
    let cast = Convert::new(src, dst, DataType::Float32, DataType::Cutlasshalf, ids.next());
    assert_eq!(cast.emit().unwrap(), "cast_float_to_cutlass::half_t(rA, rB);\n");
    assert_eq!(cast.get_name(), "Convert_2");
    let op = Operator::Convert(cast);
    assert_eq!(op.emit().unwrap(), "cast_float_to_cutlass::half_t(rA, rB);\n");
    assert_eq!(op.get_name(), "Convert_2");
}

#[test]
fn convert_wants_the_same_storage_and_shape() {
    let mut ids = IdCounter::new();
    let a = Buffer::new("a", BufType::RegTile, &[64, 64], Layout::RowMajor, ids.next());
    let b = Buffer::new("b", BufType::SharedTile, &[64, 64], Layout::RowMajor, ids.next());
    let c = Buffer::new("c", BufType::RegTile, &[64, 32], Layout::RowMajor, ids.next());
    let d = Buffer::new("d", BufType::RegTile, &[64, 64], Layout::ColumnMajor, ids.next());
    let e = Buffer::new("e", BufType::RegTile, &[64, 64], Layout::RowMajor, ids.next());
    assert!(!Convert::check_compatible(&a, &b));
    assert!(!Convert::check_compatible(&a, &c));
    assert!(!Convert::check_compatible(&a, &d));
    assert!(Convert::check_compatible(&a, &e));
}

#[test]
fn copy_tasks() {
    let cases = [
        (CopyType::GlobalToShared, "copy_tensor_g2s(a, b, c)"),
        (CopyType::SharedToGlobal, "copy_tensor_s2g(a, b, c)"),
        (CopyType::SharedToRF, "copy_tensor_s2rf(a, b, c)"),
        (CopyType::RFToShared, "copy_tensor_rf2s(a, b, c)"),
    ];
    for (i, (kind, expected)) in cases.into_iter().enumerate() {
        let task = CopyTask::new(kind, i);
        assert_eq!(task.emit().unwrap(), expected);
        assert_eq!(task.get_name(), format!("Copy_{}", i));
    }
}

#[test]
fn bounds_are_written_as_numbers_or_names() {
    assert_eq!(IterationBound::Fixed(12).to_string(), "12");
    let bound = IterationBound::Var(RegularVar::new(String::from("N"), 3));
    assert_eq!(bound.to_string(), "N");
}
