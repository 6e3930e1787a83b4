use socha::coordinate::{CartesianCoordinate, CubeCoordinates, CubeDirection};
use socha::field::{Field, FieldType};
use socha::segment::Segment;

fn grid() -> Vec<Vec<Field>> {
    let mut fields = vec![vec![Field::new(FieldType::Water, None); 5]; 4];
    fields[0][0] = Field::new(FieldType::Island, None);
    fields[1][2] = Field::new(FieldType::Goal, None);
    fields[3][4] = Field::new(FieldType::Sandbank, None);
    fields
}

fn turned(direction: CubeDirection) -> Segment {
    Segment::new(direction, CubeCoordinates::new(3, -1), grid())
}

#[test]
fn local_to_global_turns_and_shifts() {
    let local = CubeCoordinates::new(1, 0);
    let expected = [(4, -1), (3, 0), (2, 0), (2, -1), (3, -2), (4, -2)];
    for (direction, (q, r)) in CubeDirection::VALUES.iter().zip(expected) {
        assert_eq!(turned(*direction).local_to_global(local), CubeCoordinates::new(q, r));
    }
    let other = CubeCoordinates::new(2, -1);
    let expected = [(5, -2), (4, 0), (2, 1), (1, 0), (2, -2), (4, -3)];
    for (direction, (q, r)) in CubeDirection::VALUES.iter().zip(expected) {
        assert_eq!(turned(*direction).local_to_global(other), CubeCoordinates::new(q, r));
    }
}

#[test]
fn global_to_local_undoes_the_turn() {
    let global = CubeCoordinates::new(3, 0);
    let expected = [(0, 1), (1, 0), (1, -1), (0, -1), (-1, 0), (-1, 1)];
    for (direction, (q, r)) in CubeDirection::VALUES.iter().zip(expected) {
        assert_eq!(turned(*direction).global_to_local(global), CubeCoordinates::new(q, r));
    }
}

#[test]
fn local_and_global_round_trip() {
    for direction in CubeDirection::VALUES {
        let segment = turned(direction);
        for q in -6..7 {
            for r in -6..7 {
                let c = CubeCoordinates::new(q, r);
                assert_eq!(segment.local_to_global(segment.global_to_local(c)), c);
                assert_eq!(segment.global_to_local(segment.local_to_global(c)), c);
                assert_eq!(segment.checked_local_to_global(c), Some(segment.local_to_global(c)));
            }
        }
    }
}

#[test]
fn every_cell_is_found_at_its_position() {
    for direction in CubeDirection::VALUES {
        let segment = turned(direction);
        let mut held = 0;
        for q in -10..15 {
            for r in -12..12 {
                if segment.contains(CubeCoordinates::new(q, r)) {
                    held += 1;
                }
            }
        }
        assert_eq!(held, 20);
        for x in 0..4 {
            for y in 0..5 {
                let at = segment.position_at(x, y).unwrap();
                assert!(segment.contains(at));
                assert_eq!(segment.index_of(at), Some((x, y)));
                assert_eq!(segment.get(at), Some(segment.fields[x][y]));
                let local = CartesianCoordinate::new(x as i32, y as i32).to_cube();
                assert_eq!(segment.local_to_global(local), at);
                assert_eq!(segment.global_to_local(at).to_cartesian(), CartesianCoordinate::new(x as i32, y as i32));
            }
        }
    }
}

#[test]
fn positions_of_the_corners() {
    let first = [(2, -3), (5, -4), (6, -2), (4, 1), (1, 2), (0, 0)];
    let last = [(3, 1), (1, 1), (1, -1), (3, -3), (5, -3), (5, -1)];
    for (i, direction) in CubeDirection::VALUES.iter().enumerate() {
        let segment = turned(*direction);
        assert_eq!(segment.position_at(0, 0), Some(CubeCoordinates::new(first[i].0, first[i].1)));
        assert_eq!(segment.position_at(3, 4), Some(CubeCoordinates::new(last[i].0, last[i].1)));
        assert_eq!(segment.position_at(1, 2), Some(CubeCoordinates::new(3, -1)));
    }
}

#[test]
fn position_outside_the_plane_is_absent() {
    let segment = Segment::new(CubeDirection::Right, CubeCoordinates::new(i32::MAX - 1, 0), grid());
    assert_eq!(segment.position_at(2, 2), Some(CubeCoordinates::new(i32::MAX, 0)));
    assert_eq!(segment.position_at(3, 2), None);
    assert_eq!(segment.position_at(usize::MAX, usize::MAX), None);
    assert_eq!(segment.checked_local_to_global(CubeCoordinates::new(2, 0)), None);
}

#[test]
fn get_and_contains() {
    let segment = turned(CubeDirection::DownRight);
    assert_eq!(segment.get(CubeCoordinates::new(3, -1)), Some(Field::new(FieldType::Goal, None)));
    assert_eq!(segment.get(CubeCoordinates::new(5, -4)), Some(Field::new(FieldType::Island, None)));
    assert_eq!(segment.get(CubeCoordinates::new(1, 1)), Some(Field::new(FieldType::Sandbank, None)));
    assert_eq!(segment.get(CubeCoordinates::new(3, 0)), Some(Field::new(FieldType::Water, None)));
    assert_eq!(segment.index_of(CubeCoordinates::new(3, 0)), Some((2, 2)));
    assert_eq!(segment.get(CubeCoordinates::new(0, 0)), None);
    assert!(segment.contains(CubeCoordinates::new(3, 0)));
    assert!(!segment.contains(CubeCoordinates::new(0, 0)));
    assert!(!segment.contains(CubeCoordinates::new(i32::MIN, 1)));
    assert!(!segment.contains(CubeCoordinates::new(i32::MAX, i32::MIN + 1)));
}

#[test]
fn ragged_grid_is_held_column_by_column() {
    let w = Field::new(FieldType::Water, None);
    let segment = Segment::new(
        CubeDirection::Right,
        CubeCoordinates::new(0, 0),
        vec![vec![w; 5], vec![w; 2], vec![], vec![w; 3]],
    );
    assert!(segment.contains(CubeCoordinates::new(-1, 0)));
    assert!(!segment.contains(CubeCoordinates::new(0, 0)));
    assert!(segment.contains(CubeCoordinates::new(0, -1)));
    assert!(!segment.contains(CubeCoordinates::new(1, 0)));
    assert!(segment.contains(CubeCoordinates::new(2, 0)));
    assert!(!segment.contains(CubeCoordinates::new(1, 1)));
}

#[test]
fn clone_is_equal_and_independent() {
    let segment = turned(CubeDirection::UpLeft);
    let mut copy = segment.clone();
    assert_eq!(copy, segment);
    copy.fields[0][0] = Field::new(FieldType::Water, None);
    assert_eq!(segment.fields[0][0], Field::new(FieldType::Island, None));
}

#[test]
fn field_keeps_passengers_only_on_passenger_cells() {
    assert_eq!(Field::new(FieldType::Passenger, Some(2)).passenger(), Some(2));
    assert_eq!(Field::new(FieldType::Passenger, None).passenger(), None);
    assert_eq!(Field::new(FieldType::Water, Some(2)).passenger(), None);
    assert_eq!(Field::new(FieldType::Goal, Some(2)).field_type(), FieldType::Goal);
    assert!(Field::new(FieldType::Passenger, Some(1)).has_waiting_passenger());
    assert!(!Field::new(FieldType::Passenger, Some(0)).has_waiting_passenger());
    assert!(!Field::new(FieldType::Passenger, Some(-1)).has_waiting_passenger());
    assert!(!Field::new(FieldType::Passenger, None).has_waiting_passenger());
    assert!(!(Field { field_type: FieldType::Island, passenger: Some(3) }).has_waiting_passenger());
}

#[test]
fn field_type_codes() {
    assert_eq!(FieldType::Water.code(), 'W');
    assert_eq!(FieldType::Sandbank.code(), 'S');
    assert_eq!(FieldType::Island.code(), 'I');
    assert_eq!(FieldType::Passenger.code(), 'P');
    assert_eq!(FieldType::Goal.code(), 'G');
}
