use brep_robust::director::{Director, EdgeId, FaceId, TopoGeomIntegrity, VertexId};

#[test]
fn attach_get_and_remove() {
    let mut director: Director<String> = Director::new();
    let e = EdgeId { id: 7 };
    let f = EdgeId { id: 8 };
    assert_eq!(director.get_geometry(&e), None);
    assert_eq!(director.check_integrity(&e), TopoGeomIntegrity::NonCurvedEdge);
    assert_eq!(director.attach(&e, "line".to_string()), None);
    assert_eq!(director.attach(&e, "circle".to_string()), Some("line".to_string()));
    assert_eq!(director.get_geometry(&e), Some(&"circle".to_string()));
    assert_eq!(director.get_geometry(&f), None);
    assert_eq!(director.check_integrity(&e), TopoGeomIntegrity::Integrate);
    assert_eq!(director.remove(&e), Some("circle".to_string()));
    assert_eq!(director.remove(&e), None);
    assert_eq!(director.check_integrity(&e), TopoGeomIntegrity::NonCurvedEdge);
}

#[test]
fn kinds_with_equal_ids_are_kept_apart() {
    let mut director: Director<u32> = Director::new();
    let v = VertexId { id: 3 };
    let e = EdgeId { id: 3 };
    let f = FaceId { id: 3 };
    assert_eq!(director.attach(&v, 10), None);
    assert_eq!(director.attach(&e, 20), None);
    assert_eq!(director.get_geometry(&v), Some(&10));
    assert_eq!(director.get_geometry(&f), None);
    assert_eq!(director.check_integrity(&f), TopoGeomIntegrity::NonSurfacedFace);
    assert_eq!(director.check_integrity(&v), TopoGeomIntegrity::Integrate);
    assert_eq!(director.remove(&e), Some(20));
    assert_eq!(director.get_geometry(&v), Some(&10));
    assert_eq!(director.check_integrity(&e), TopoGeomIntegrity::NonCurvedEdge);
}

#[test]
fn get_mut_geometry_changes_in_place() {
    let mut director: Director<u64> = Director::new();
    let v = VertexId { id: 1 };
    let e = EdgeId { id: 1 };
    assert!(director.get_mut_geometry(&v).is_none());
    director.attach(&v, 5);
    director.attach(&e, 9);
    if let Some(g) = director.get_mut_geometry(&v) {
        *g = 6;
    }
    assert_eq!(director.get_geometry(&v), Some(&6));
    assert_eq!(director.get_geometry(&e), Some(&9));
}
