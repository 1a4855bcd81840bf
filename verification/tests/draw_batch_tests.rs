use bloksel::ui::draw_batch::merge_primitive_indices;

#[test]
fn indices_are_shifted_past_earlier_vertices() {
    let counts = vec![4usize, 3, 5];
    let indices = vec![vec![0u32, 1, 2, 2, 3, 0], vec![0, 1, 2], vec![4, 0]];
    assert_eq!(
        merge_primitive_indices(&counts, &indices),
        vec![0, 1, 2, 2, 3, 0, 4, 5, 6, 11, 7]
    );
}

#[test]
fn no_primitives_give_no_indices() {
    assert!(merge_primitive_indices(&vec![], &vec![]).is_empty());
    assert!(merge_primitive_indices(&vec![7], &vec![vec![]]).is_empty());
}
