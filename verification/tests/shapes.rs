use tetris::shapes::{Dir, Shape, ShapeTrait, ShapeType};

fn create_shape(shape_type: ShapeType) -> Shape {
    Shape {
        dir: Dir::Right,
        shape_type,
        x: 0,
        y: 0,
    }
}

#[test]
fn test_shape() {
    let shape = create_shape(ShapeType::I);
    assert_eq!(shape.dir, Dir::Right);
    assert_eq!(shape.x, 0);
    assert_eq!(shape.y, 0);
}

#[test]
fn test_shape_to_coords_i() {
    let shape = create_shape(ShapeType::I);
    assert_eq!(
        shape.to_coords(Dir::Right),
        vec![(0, 0), (-1, 0), (1, 0), (2, 0)]
    );
    assert_eq!(
        shape.to_coords(Dir::Down),
        vec![(0, 0), (0, -3), (0, -2), (0, -1)]
    );
    assert_eq!(
        shape.to_coords(Dir::Left),
        vec![(0, 0), (-1, 0), (1, 0), (2, 0)]
    );
    assert_eq!(
        shape.to_coords(Dir::Up),
        vec![(0, 0), (0, -3), (0, -2), (0, -1)]
    );
}

#[test]
fn test_shape_to_coords_j() {
    let shape = create_shape(ShapeType::J);
    assert_eq!(
        shape.to_coords(Dir::Right),
        vec![(0, 0), (-1, -1), (-1, 0), (1, 0)]
    );
    assert_eq!(
        shape.to_coords(Dir::Down),
        vec![(0, 0), (0, -1), (1, -1), (0, 1)]
    );
    assert_eq!(
        shape.to_coords(Dir::Left),
        vec![(0, 0), (-1, 0), (1, 0), (1, 1)]
    );
    assert_eq!(
        shape.to_coords(Dir::Up),
        vec![(0, 0), (0, -1), (-1, 1), (0, 1)]
    );
}

#[test]
fn test_shape_to_coords_l() {
    let shape = create_shape(ShapeType::L);
    assert_eq!(
        shape.to_coords(Dir::Right),
        vec![(0, 0), (-1, 0), (1, 0), (-1, 1)]
    );
    assert_eq!(
        shape.to_coords(Dir::Down),
        vec![(0, 0), (-1, -1), (0, -1), (0, 1)]
    );
    assert_eq!(
        shape.to_coords(Dir::Left),
        vec![(0, 0), (1, -1), (-1, 0), (1, 0)]
    );
    assert_eq!(
        shape.to_coords(Dir::Up),
        vec![(0, 0), (0, -1), (0, 1), (1, 1)]
    );
}

#[test]
fn test_shape_to_coords_o() {
    let shape = create_shape(ShapeType::O);
    assert_eq!(
        shape.to_coords(Dir::Right),
        vec![(0, 0), (1, 0), (0, 1), (1, 1)]
    );
    assert_eq!(
        shape.to_coords(Dir::Down),
        vec![(0, 0), (1, 0), (0, 1), (1, 1)]
    );
    assert_eq!(
        shape.to_coords(Dir::Left),
        vec![(0, 0), (1, 0), (0, 1), (1, 1)]
    );
    assert_eq!(
        shape.to_coords(Dir::Up),
        vec![(0, 0), (1, 0), (0, 1), (1, 1)]
    );
}

#[test]
fn test_shape_to_coords_s() {
    let shape = create_shape(ShapeType::S);
    assert_eq!(
        shape.to_coords(Dir::Right),
        vec![(0, 0), (1, 0), (-1, 1), (0, 1)]
    );
    assert_eq!(
        shape.to_coords(Dir::Down),
        vec![(0, 0), (0, -1), (1, 0), (1, 1)]
    );
    assert_eq!(
        shape.to_coords(Dir::Left),
        vec![(0, 0), (1, 0), (-1, 1), (0, 1)]
    );
    assert_eq!(
        shape.to_coords(Dir::Up),
        vec![(0, 0), (0, -1), (1, 0), (1, 1)]
    );
}

#[test]
fn test_shape_to_coords_t() {
    let shape = create_shape(ShapeType::T);
    assert_eq!(
        shape.to_coords(Dir::Right),
        vec![(0, 0), (0, -1), (-1, 0), (1, 0)]
    );
    assert_eq!(
        shape.to_coords(Dir::Down),
        vec![(0, 0), (0, -1), (1, 0), (0, 1)]
    );
    assert_eq!(
        shape.to_coords(Dir::Left),
        vec![(0, 0), (-1, 0), (1, 0), (0, 1)]
    );
    assert_eq!(
        shape.to_coords(Dir::Up),
        vec![(0, 0), (0, -1), (-1, 0), (0, 1)]
    );
}

#[test]
fn test_shape_to_coords_z() {
    let shape = create_shape(ShapeType::Z);
    assert_eq!(
        shape.to_coords(Dir::Right),
        vec![(0, 0), (-1, 0), (0, 1), (1, 1)]
    );
    assert_eq!(
        shape.to_coords(Dir::Down),
        vec![(0, 0), (1, -1), (1, 0), (0, 1)]
    );
    assert_eq!(
        shape.to_coords(Dir::Left),
        vec![(0, 0), (-1, 0), (0, 1), (1, 1)]
    );
    assert_eq!(
        shape.to_coords(Dir::Up),
        vec![(0, 0), (1, -1), (1, 0), (0, 1)]
    );
}

#[test]
fn test_next_dir_cycle() {
    let shape = create_shape(ShapeType::T);
    assert_eq!(shape.next_dir(Dir::Right), Dir::Down);
    assert_eq!(shape.next_dir(Dir::Down), Dir::Left);
    assert_eq!(shape.next_dir(Dir::Left), Dir::Up);
    assert_eq!(shape.next_dir(Dir::Up), Dir::Right);
}

#[test]
fn test_rotation_cycle_restores_coords() {
    let kinds = vec![
        ShapeType::I,
        ShapeType::J,
        ShapeType::L,
        ShapeType::O,
        ShapeType::S,
        ShapeType::T,
        ShapeType::Z,
    ];
    for kind in kinds {
        let shape = Shape::new(5, 7, kind);
        let start = shape.to_coords(shape.dir);
        let mut dir = shape.dir;
        for _ in 0..4 {
            dir = shape.next_dir(dir);
        }
        assert_eq!(dir, shape.dir);
        assert_eq!(shape.to_coords(dir), start);
    }
}

#[test]
fn test_home_cell_first() {
    let kinds = vec![
        ShapeType::I,
        ShapeType::J,
        ShapeType::L,
        ShapeType::O,
        ShapeType::S,
        ShapeType::T,
        ShapeType::Z,
    ];
    for kind in kinds {
        let shape = Shape::new(4, 9, kind);
        let mut dir = Dir::Right;
        for _ in 0..4 {
            let coords = shape.to_coords(dir);
            assert_eq!(coords.len(), 4);
            assert_eq!(coords[0], (4, 9));
            dir = shape.next_dir(dir);
        }
    }
}

#[test]
fn test_shape_tags() {
    assert_eq!(ShapeType::I.tag(), 1);
    assert_eq!(ShapeType::J.tag(), 2);
    assert_eq!(ShapeType::L.tag(), 3);
    assert_eq!(ShapeType::O.tag(), 4);
    assert_eq!(ShapeType::S.tag(), 5);
    assert_eq!(ShapeType::T.tag(), 6);
    assert_eq!(ShapeType::Z.tag(), 7);
}
