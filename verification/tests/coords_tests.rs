use hive_engine::coords::{AxialCoords, CubeCoords};

#[test]
fn cube_axial_round_trip() {
    let a = AxialCoords::new(3, -2);
    let c = a.to_cube();
    assert_eq!(c.x, 3);
    assert_eq!(c.y, -2);
    assert_eq!(c.z, -1);
    assert_eq!(c.to_axial(), a);

    let c2 = CubeCoords::new(-4, 1, 3);
    assert_eq!(c2.to_axial().to_cube(), c2);
}

#[test]
fn six_neighbors_before_clipping() {
    let c = AxialCoords::new(0, 0);
    let ns = c.coord_neighbors();
    assert_eq!(ns.len(), 6);
    for n in &ns {
        assert!(c.is_adjacent_to(*n));
        assert!(n.is_adjacent_to(c));
    }
    assert!(!c.is_adjacent_to(AxialCoords::new(2, 0)));
    assert!(!c.is_adjacent_to(c));
}

#[test]
fn adjacency_offsets() {
    let c = AxialCoords::new(1, 1);
    assert!(c.is_adjacent_to(AxialCoords::new(2, 1)));
    assert!(c.is_adjacent_to(AxialCoords::new(0, 1)));
    assert!(c.is_adjacent_to(AxialCoords::new(1, 2)));
    assert!(c.is_adjacent_to(AxialCoords::new(1, 0)));
    assert!(c.is_adjacent_to(AxialCoords::new(2, 0)));
    assert!(c.is_adjacent_to(AxialCoords::new(0, 2)));
    assert!(!c.is_adjacent_to(AxialCoords::new(2, 2)));
    assert!(!c.is_adjacent_to(AxialCoords::new(0, 0)));
}

#[test]
fn forms_line_on_the_three_axes() {
    let c = AxialCoords::new(0, 0);
    assert!(c.forms_line_with(AxialCoords::new(0, 4)));
    assert!(c.forms_line_with(AxialCoords::new(-3, 0)));
    assert!(c.forms_line_with(AxialCoords::new(2, -2)));
    assert!(!c.forms_line_with(AxialCoords::new(1, 2)));
}

#[test]
fn line_between_is_the_open_segment() {
    let a = AxialCoords::new(0, 0);
    let b = AxialCoords::new(3, 0);
    let between = a.line_between(b);
    assert_eq!(between, vec![AxialCoords::new(1, 0), AxialCoords::new(2, 0)]);

    let between_diag = a.line_between(AxialCoords::new(-2, 2));
    assert_eq!(between_diag, vec![AxialCoords::new(-1, 1)]);

    let adjacent = a.line_between(AxialCoords::new(0, 1));
    assert!(adjacent.is_empty());

    let same = a.line_between(a);
    assert!(same.is_empty());
}
