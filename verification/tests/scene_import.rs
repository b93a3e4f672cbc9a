use insploray::geometry::{collect_primitives, Mesh, Triangle};
use insploray::scene::{group_triples, import_models, triangles_from_indices, ObjModel};

#[test]
fn triples_group_in_threes() {
    let flat = vec![1.0f32, 2.0, 3.0, 4.0, 5.0, 6.0];
    assert_eq!(group_triples(&flat), vec![(1.0, 2.0, 3.0), (4.0, 5.0, 6.0)]);
    assert!(group_triples::<f32>(&vec![]).is_empty());
}

#[test]
fn triangles_from_index_list() {
    let tris = triangles_from_indices(&vec![0, 1, 2, 2, 3, 0], 4);
    assert_eq!(tris.len(), 2);
    assert_eq!((tris[1].v0, tris[1].v1, tris[1].v2, tris[1].mesh_id()), (2, 3, 0, 4));
}

#[test]
fn import_shifts_mesh_and_material_ids() {
    let models = vec![
        ObjModel {
            name: "floor".to_string(),
            positions: vec![0.0f32, 0.0, 0.0, 1.0, 0.0, 0.0, 0.0, 0.0, 1.0],
            normals: vec![],
            indices: vec![0, 1, 2],
            material_id: Some(1),
        },
        ObjModel {
            name: "light".to_string(),
            positions: vec![0.0f32, 2.0, 0.0],
            normals: vec![0.0f32, -1.0, 0.0],
            indices: vec![0, 0, 0, 0, 0, 0],
            material_id: None,
        },
    ];
    let (meshes, tris) = import_models(&models, 3, 10);
    assert_eq!(meshes.len(), 2);
    assert_eq!(meshes[0].name, "floor");
    assert_eq!(meshes[0].id, 3);
    assert_eq!(meshes[1].id, 4);
    assert_eq!(meshes[0].material_id, Some(11));
    assert_eq!(meshes[1].material_id, None);
    assert_eq!(meshes[0].vertices.len(), 3);
    assert_eq!(meshes[0].vertices[1], (1.0, 0.0, 0.0));
    assert_eq!(meshes[1].normals, vec![(0.0, -1.0, 0.0)]);
    assert_eq!(tris.len(), 3);
    assert_eq!(tris[0].mesh_id(), 3);
    assert_eq!(tris[1].mesh_id(), 4);
    assert_eq!(tris[2].mesh_id(), 4);
}

#[test]
fn collect_primitives_in_mesh_order() {
    let a = Mesh::new("a".to_string(), vec![Triangle::new(0, 1, 2, 0)]);
    let b = Mesh::new("b".to_string(), vec![Triangle::new(3, 4, 5, 1), Triangle::new(6, 7, 8, 1)]);
    let prims = collect_primitives(&vec![a, b]);
    assert_eq!(prims.len(), 3);
    assert_eq!(prims[0].v0, 0);
    assert_eq!(prims[2].v2, 8);
    assert_eq!(prims[2].mesh_id(), 1);
}
