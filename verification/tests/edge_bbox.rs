use pcbmotorgen::board::EdgeBox;
use pcbmotorgen::board_items::Vector2;
use pcbmotorgen::edge_bbox::{edge_cut_bbox_nm, two_point_bbox, ShapeBox, EDGE_CUTS_LAYER};

const MM: i64 = 1_000_000;

fn p(x_mm: i64, y_mm: i64) -> Vector2 {
    Vector2 { x_nm: x_mm * MM, y_nm: y_mm * MM }
}

fn edge_shape(bbox: EdgeBox) -> ShapeBox {
    ShapeBox { layer: EDGE_CUTS_LAYER, bbox: Some(bbox) }
}

fn boxed(x_min: i64, y_min: i64, x_max: i64, y_max: i64) -> EdgeBox {
    EdgeBox { x_min_nm: x_min, y_min_nm: y_min, x_max_nm: x_max, y_max_nm: y_max }
}

#[test]
fn segment_bbox_is_endpoints() {
    let seg = two_point_bbox(p(0, 2), p(4, -6));
    let bbox = edge_cut_bbox_nm(&vec![edge_shape(seg)]).unwrap();
    assert_eq!(bbox, boxed(0, -6 * MM, 4 * MM, 2 * MM));
}

#[test]
fn rectangle_bbox_is_corners() {
    let rect = two_point_bbox(p(-2, 5), p(3, -1));
    let bbox = edge_cut_bbox_nm(&vec![edge_shape(rect)]).unwrap();
    assert_eq!(bbox, boxed(-2 * MM, -MM, 3 * MM, 5 * MM));
}

#[test]
fn non_edge_cut_layers_are_ignored() {
    let shapes = vec![
        ShapeBox { layer: 40, bbox: Some(two_point_bbox(p(0, 0), p(1, 1))) },
        ShapeBox { layer: 43, bbox: Some(two_point_bbox(p(2, 0), p(3, 0))) },
    ];
    assert_eq!(edge_cut_bbox_nm(&shapes), None);
}

#[test]
fn empty_and_geometryless_shapes_yield_none() {
    assert_eq!(edge_cut_bbox_nm(&vec![]), None);
    assert_eq!(edge_cut_bbox_nm(&vec![ShapeBox { layer: EDGE_CUTS_LAYER, bbox: None }]), None);
}

#[test]
fn multiple_shapes_are_unioned() {
    let shapes = vec![edge_shape(two_point_bbox(p(0, 0), p(4, 1))), edge_shape(two_point_bbox(p(-2, -3), p(1, 8)))];
    let bbox = edge_cut_bbox_nm(&shapes).unwrap();
    assert_eq!(bbox, boxed(-2 * MM, -3 * MM, 4 * MM, 8 * MM));
}

#[test]
fn union_holds_every_edge_shape_and_touches_each_side() {
    let boxes = [boxed(5, 5, 6, 6), boxed(-3, 2, 1, 9), boxed(0, -7, 4, 0)];
    let mut shapes: Vec<ShapeBox> = boxes.iter().map(|b| edge_shape(*b)).collect();
    shapes.insert(1, ShapeBox { layer: 3, bbox: Some(boxed(-100, -100, 100, 100)) });
    let u = edge_cut_bbox_nm(&shapes).unwrap();
    for b in boxes {
        assert!(u.x_min_nm <= b.x_min_nm && u.y_min_nm <= b.y_min_nm);
        assert!(b.x_max_nm <= u.x_max_nm && b.y_max_nm <= u.y_max_nm);
    }
    assert_eq!(u, boxed(-3, -7, 6, 9));
}

#[test]
fn geometryless_edge_shape_does_not_grow_the_box() {
    let shapes = vec![ShapeBox { layer: EDGE_CUTS_LAYER, bbox: None }, edge_shape(boxed(1, 2, 3, 4))];
    assert_eq!(edge_cut_bbox_nm(&shapes), Some(boxed(1, 2, 3, 4)));
}
