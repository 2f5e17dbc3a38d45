use ga_sim::mesh::{material_slots_by_primitive, triangle_material_indices, triangle_position_offsets, ObjMesh};

#[test]
fn material_index_per_triangle() {
    let meshes = vec![
        ObjMesh { indices: vec![0, 1, 2, 2, 3, 0], material_id: Some(4) },
        ObjMesh { indices: vec![0, 1, 2], material_id: None },
        ObjMesh { indices: vec![5, 6, 7, 8], material_id: Some(1) },
        ObjMesh { indices: vec![0, 1, 2], material_id: Some(258) },
    ];
    assert_eq!(triangle_material_indices(&meshes), vec![4, 4, 1, 2]);
    assert_eq!(triangle_material_indices(&[]), Vec::<u8>::new());
}

#[test]
fn material_slots_follow_primitive_order() {
    let material_indices = [2u8, 0, 1];
    assert_eq!(material_slots_by_primitive(&[2, 0, 1, 2], &material_indices, 3), Some(vec![1, 2, 0, 1]));
    assert_eq!(material_slots_by_primitive(&[3], &material_indices, 3), None);
    assert_eq!(material_slots_by_primitive(&[0], &material_indices, 2), None);
    assert_eq!(material_slots_by_primitive(&[], &material_indices, 0), Some(vec![]));
}

#[test]
fn position_offsets_are_three_per_vertex() {
    assert_eq!(triangle_position_offsets(&[0, 1, 2, 5, 4, 3, 9]), Some(vec![[0, 3, 6], [15, 12, 9]]));
    assert_eq!(triangle_position_offsets(&[1, 2]), Some(vec![]));
}
