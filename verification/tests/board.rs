use socha::board::Board;
use socha::coordinate::{CubeCoordinates, CubeDirection};
use socha::field::{Field, FieldType};
use socha::segment::Segment;
use socha::ship::Ship;

fn water(columns: usize, rows: usize) -> Vec<Vec<Field>> {
    vec![vec![Field::new(FieldType::Water, None); rows]; columns]
}

/// Two segments in a row, both turned to the right, that share no cell.
fn course() -> Board {
    let mut first = water(4, 5);
    first[2][1] = Field::new(FieldType::Sandbank, None);
    first[3][3] = Field::new(FieldType::Passenger, Some(1));
    let mut second = water(4, 5);
    second[0][0] = Field::new(FieldType::Island, None);
    second[3][4] = Field::new(FieldType::Goal, None);
    Board::new(
        vec![
            Segment { direction: CubeDirection::Right, center: CubeCoordinates::new(0, 0), fields: first },
            Segment { direction: CubeDirection::Right, center: CubeCoordinates::new(4, 0), fields: second },
        ],
        CubeDirection::DownRight,
    )
}

/// Two segments that both hold the cells (2, -1) and (2, 0).
fn overlapping() -> Board {
    Board::new(
        vec![
            Segment {
                direction: CubeDirection::Right,
                center: CubeCoordinates::new(0, 0),
                fields: water(4, 5),
            },
            Segment {
                direction: CubeDirection::DownRight,
                center: CubeCoordinates::new(4, 0),
                fields: vec![vec![Field::new(FieldType::Sandbank, None); 5]; 4],
            },
        ],
        CubeDirection::DownRight,
    )
}

#[test]
fn test_get_segment() {
    let board = course();
    assert_eq!(board.get_segment(0), Some(board.segments[0].clone()));
    assert_eq!(board.get_segment(1).map(|s| s.center), Some(CubeCoordinates::new(4, 0)));
    assert_eq!(board.get_segment(2), None);
}

#[test]
fn test_get() {
    let board = course();
    assert_eq!(board.get(&CubeCoordinates::new(0, 0)), Some(Field::new(FieldType::Water, None)));
    assert_eq!(board.get(&CubeCoordinates::new(1, -1)), Some(Field::new(FieldType::Sandbank, None)));
    assert_eq!(board.get(&CubeCoordinates::new(1, 1)), Some(Field::new(FieldType::Passenger, Some(1))));
    assert_eq!(board.get(&CubeCoordinates::new(3, -2)), Some(Field::new(FieldType::Island, None)));
    assert_eq!(board.get(&CubeCoordinates::new(4, 2)), Some(Field::new(FieldType::Goal, None)));
    assert_eq!(board.get(&CubeCoordinates::new(7, 0)), None);
    assert_eq!(board.get(&CubeCoordinates::new(-2, 0)), None);
}

#[test]
fn test_does_field_have_stream() {
    let mut segment: Vec<Segment> = vec![Segment {
        direction: CubeDirection::Right,
        center: CubeCoordinates::new(0, 0),
        fields: vec![
            vec![
                Field::new(FieldType::Water, None),
                Field::new(FieldType::Water, None),
                Field::new(FieldType::Water, None),
                Field::new(FieldType::Water, None),
            ],
            vec![
                Field::new(FieldType::Water, None),
                Field::new(FieldType::Water, None),
                Field::new(FieldType::Water, None),
                Field::new(FieldType::Water, None),
            ],
            vec![
                Field::new(FieldType::Water, None),
                Field::new(FieldType::Water, None),
                Field::new(FieldType::Water, None),
                Field::new(FieldType::Water, None),
            ],
            vec![
                Field::new(FieldType::Water, None),
                Field::new(FieldType::Water, None),
                Field::new(FieldType::Water, None),
                Field::new(FieldType::Water, None),
            ],
            vec![
                Field::new(FieldType::Water, None),
                Field::new(FieldType::Water, None),
                Field::new(FieldType::Water, None),
                Field::new(FieldType::Water, None),
            ],
        ],
    }];
    let mut board: Board = Board::new(segment, CubeDirection::DownRight);

    assert_eq!(board.does_field_have_stream(&CubeCoordinates::new(0, 0)), true);
    assert_eq!(board.does_field_have_stream(&CubeCoordinates::new(0, 1)), true);
    assert_eq!(board.does_field_have_stream(&CubeCoordinates::new(-1, 1)), false);
    assert_eq!(board.does_field_have_stream(&CubeCoordinates::new(1, 1)), false);

    segment = vec![Segment {
        direction: CubeDirection::DownRight,
        center: CubeCoordinates::new(0, 0),
        fields: vec![
            vec![
                Field::new(FieldType::Water, None),
                Field::new(FieldType::Water, None),
                Field::new(FieldType::Water, None),
                Field::new(FieldType::Water, None),
            ],
            vec![
                Field::new(FieldType::Water, None),
                Field::new(FieldType::Water, None),
                Field::new(FieldType::Water, None),
                Field::new(FieldType::Water, None),
            ],
            vec![
                Field::new(FieldType::Water, None),
                Field::new(FieldType::Water, None),
                Field::new(FieldType::Water, None),
                Field::new(FieldType::Water, None),
            ],
            vec![
                Field::new(FieldType::Water, None),
                Field::new(FieldType::Water, None),
                Field::new(FieldType::Water, None),
                Field::new(FieldType::Water, None),
            ],
            vec![
                Field::new(FieldType::Water, None),
                Field::new(FieldType::Water, None),
                Field::new(FieldType::Water, None),
                Field::new(FieldType::Water, None),
            ],
        ],
    }];

    board = Board::new(segment, CubeDirection::DownRight);

    assert_eq!(board.does_field_have_stream(&CubeCoordinates::new(0, 0)), true);
    assert_eq!(board.does_field_have_stream(&CubeCoordinates::new(0, 1)), true);
    assert_eq!(board.does_field_have_stream(&CubeCoordinates::new(-1, 1)), false);
    assert_eq!(board.does_field_have_stream(&CubeCoordinates::new(1, 1)), false);
}

#[test]
fn stream_has_four_cells_in_each_segment() {
    let board = course();
    let expected = [(-1, 0), (0, 0), (1, 0), (2, 0), (3, 0), (4, 0), (4, 1), (4, 2)];
    for q in -4..9 {
        for r in -4..5 {
            assert_eq!(
                board.does_field_have_stream(&CubeCoordinates::new(q, r)),
                expected.contains(&(q, r)),
                "at ({}, {})",
                q,
                r
            );
        }
    }
}

#[test]
fn stream_is_absent_off_the_board() {
    let board = Board::new(
        vec![Segment {
            direction: CubeDirection::Right,
            center: CubeCoordinates::new(0, 0),
            fields: water(4, 3),
        }],
        CubeDirection::DownRight,
    );
    // One and two steps ahead of the centre, but below the last row of the grid.
    assert_eq!(board.get(&CubeCoordinates::new(0, 0)), Some(Field::new(FieldType::Water, None)));
    assert_eq!(board.get(&CubeCoordinates::new(0, 1)), None);
    assert_eq!(board.does_field_have_stream(&CubeCoordinates::new(0, 1)), false);
    assert_eq!(board.does_field_have_stream(&CubeCoordinates::new(0, 2)), false);
    assert_eq!(board.does_field_have_stream(&CubeCoordinates::new(-1, 0)), true);
}

#[test]
fn test_get_field_in_direction() {
    let board = course();
    let at = CubeCoordinates::new(2, 0);
    assert_eq!(
        board.get_field_in_direction(&CubeDirection::DownLeft, &at),
        Some(Field::new(FieldType::Passenger, Some(1)))
    );
    assert_eq!(
        board.get_field_in_direction(&CubeDirection::Right, &at),
        Some(Field::new(FieldType::Water, None))
    );
    assert_eq!(board.get_field_in_direction(&CubeDirection::Right, &CubeCoordinates::new(6, 0)), None);
    assert_eq!(
        board.get_field_in_direction(&CubeDirection::Left, &CubeCoordinates::new(7, 0)),
        Some(Field::new(FieldType::Water, None))
    );
}

#[test]
fn test_get_coordinate_by_index() {
    let board = course();
    assert_eq!(board.get_coordinate_by_index(0, 1, 2), CubeCoordinates::new(0, 0));
    assert_eq!(board.get_coordinate_by_index(1, 1, 2), CubeCoordinates::new(4, 0));
    assert_eq!(board.get_coordinate_by_index(0, 0, 0), CubeCoordinates::new(-1, -2));
    assert_eq!(board.get_coordinate_by_index(1, 0, 0), CubeCoordinates::new(3, -2));
    assert_eq!(board.get_coordinate_by_index(0, 3, 4), CubeCoordinates::new(0, 2));
    assert_eq!(board.get_coordinate_by_index(1, 3, 3), CubeCoordinates::new(5, 1));
    for i in 0..2 {
        for x in 0..4 {
            for y in 0..5 {
                let at = board.get_coordinate_by_index(i, x, y);
                assert_eq!(board.get(&at), Some(board.segments[i].fields[x][y]));
                assert_eq!(board.segment_index(&at), Some(i));
            }
        }
    }
}

#[test]
fn test_segment_distance() {
    let board = course();
    let a = CubeCoordinates::new(0, 0);
    let b = CubeCoordinates::new(6, 0);
    assert_eq!(board.segment_distance(&a, &b), Some(1));
    assert_eq!(board.segment_distance(&b, &a), Some(1));
    assert_eq!(board.segment_distance(&a, &CubeCoordinates::new(2, 0)), Some(0));
    assert_eq!(board.segment_distance(&a, &CubeCoordinates::new(7, 0)), None);
    assert_eq!(board.segment_distance(&CubeCoordinates::new(-2, 0), &b), None);
}

#[test]
fn test_segment_index() {
    let board = course();
    assert_eq!(board.segment_index(&CubeCoordinates::new(0, 0)), Some(0));
    assert_eq!(board.segment_index(&CubeCoordinates::new(2, 0)), Some(0));
    assert_eq!(board.segment_index(&CubeCoordinates::new(3, 0)), Some(1));
    assert_eq!(board.segment_index(&CubeCoordinates::new(6, 0)), Some(1));
    assert_eq!(board.segment_index(&CubeCoordinates::new(4, -2)), Some(1));
    assert_eq!(board.segment_index(&CubeCoordinates::new(1, 2)), Some(1));
    assert_eq!(board.segment_index(&CubeCoordinates::new(7, 0)), None);
    assert_eq!(board.segment_index(&CubeCoordinates::new(-2, 0)), None);
}

#[test]
fn test_find_segment() {
    let board = course();
    assert_eq!(
        board.find_segment(&CubeCoordinates::new(5, 1)),
        Some(board.segments[1].clone())
    );
    assert_eq!(
        board.find_segment(&CubeCoordinates::new(-1, 0)),
        Some(board.segments[0].clone())
    );
    assert_eq!(board.find_segment(&CubeCoordinates::new(0, 5)), None);
    assert_eq!(
        board.segment_with_index_at(CubeCoordinates::new(5, 1)),
        Some((1, board.segments[1].clone()))
    );
    assert_eq!(board.segment_with_index_at(CubeCoordinates::new(0, 5)), None);
}

#[test]
fn test_neighboring_fields() {
    let board = course();
    let w = Some(Field::new(FieldType::Water, None));
    assert_eq!(
        board.neighboring_fields(&CubeCoordinates::new(2, 0)),
        vec![w, w, Some(Field::new(FieldType::Passenger, Some(1))), w, w, w]
    );
    assert_eq!(
        board.neighboring_fields(&CubeCoordinates::new(-1, -2)),
        vec![w, w, None, None, None, None]
    );
}

#[test]
fn neighboring_coordinates_follow_the_compass() {
    let board = course();
    assert_eq!(
        board.neighboring_coordinates(&CubeCoordinates::new(2, 0)),
        vec![
            Some(CubeCoordinates::new(3, 0)),
            Some(CubeCoordinates::new(2, 1)),
            Some(CubeCoordinates::new(1, 1)),
            Some(CubeCoordinates::new(1, 0)),
            Some(CubeCoordinates::new(2, -1)),
            Some(CubeCoordinates::new(3, -1)),
        ]
    );
    assert_eq!(
        board.neighboring_coordinates(&CubeCoordinates::new(6, -2)),
        vec![
            None,
            Some(CubeCoordinates::new(6, -1)),
            Some(CubeCoordinates::new(5, -1)),
            Some(CubeCoordinates::new(5, -2)),
            None,
            None,
        ]
    );
}

#[test]
fn neighbors_at_the_edge_of_the_plane_are_absent() {
    let board = Board::new(
        vec![Segment {
            direction: CubeDirection::Right,
            center: CubeCoordinates::new(i32::MAX - 1, 0),
            fields: water(4, 5),
        }],
        CubeDirection::Right,
    );
    let last = CubeCoordinates::new(i32::MAX, 0);
    assert_eq!(board.get(&last), Some(Field::new(FieldType::Water, None)));
    let cells = board.neighboring_coordinates(&last);
    assert_eq!(cells[0], None);
    assert_eq!(cells[3], Some(CubeCoordinates::new(i32::MAX - 1, 0)));
    assert_eq!(cells[5], None);
}

#[test]
fn test_effective_speed() {
    let board = course();
    let on_stream = Ship::new(CubeCoordinates::new(0, 0), 3, 0, 0);
    let off_stream = Ship::new(CubeCoordinates::new(0, 1), 3, 0, 0);
    let off_board = Ship::new(CubeCoordinates::new(0, 9), 3, 0, 0);
    assert_eq!(board.effective_speed(&on_stream), 2);
    assert_eq!(board.effective_speed(&off_stream), 3);
    assert_eq!(board.effective_speed(&off_board), 3);
}

#[test]
fn effective_speed_may_be_negative() {
    let board = course();
    assert_eq!(board.effective_speed(&Ship::new(CubeCoordinates::new(4, 1), 0, 0, 0)), -1);
    assert_eq!(board.effective_speed(&Ship::new(CubeCoordinates::new(4, 1), -5, 0, 0)), -6);
    assert_eq!(board.effective_speed(&Ship::new(CubeCoordinates::new(5, 1), i32::MIN, 0, 0)), i32::MIN);
}

#[test]
fn test_get_field_current_direction() {
    // The current of the last segment bends towards the direction that follows the course.
    let mut board = course();
    assert_eq!(board.does_field_have_stream(&CubeCoordinates::new(4, 1)), true);
    assert_eq!(board.does_field_have_stream(&CubeCoordinates::new(5, 0)), false);
    board.next_direction = CubeDirection::Right;
    assert_eq!(board.does_field_have_stream(&CubeCoordinates::new(4, 1)), false);
    assert_eq!(board.does_field_have_stream(&CubeCoordinates::new(5, 0)), true);
    assert_eq!(board.does_field_have_stream(&CubeCoordinates::new(6, 0)), true);
}

#[test]
fn is_sandbank_only_on_sandbanks() {
    let board = course();
    assert!(board.is_sandbank(&CubeCoordinates::new(1, -1)));
    assert!(!board.is_sandbank(&CubeCoordinates::new(0, 0)));
    assert!(!board.is_sandbank(&CubeCoordinates::new(1, 1)));
    assert!(!board.is_sandbank(&CubeCoordinates::new(9, 9)));
}

#[test]
fn segments_of_the_course_are_disjoint() {
    let board = course();
    assert!(board.segments_are_disjoint());
    for q in -5..10 {
        for r in -5..6 {
            let at = CubeCoordinates::new(q, r);
            let holders = board.segments.iter().filter(|s| s.contains(at)).count();
            assert!(holders <= 1);
            assert_eq!(holders == 1, board.get(&at).is_some());
        }
    }
}

#[test]
fn overlapping_segments_are_told_apart() {
    let board = overlapping();
    assert!(!board.segments_are_disjoint());
    assert!(board.overlaps_later(0));
    assert!(!board.overlaps_later(1));
    assert!(board.held_after(0, &CubeCoordinates::new(2, 0)));
    assert!(!board.held_after(0, &CubeCoordinates::new(0, 0)));
    assert!(!board.held_after(1, &CubeCoordinates::new(2, 0)));
    // The first segment in course order answers for a shared cell.
    assert_eq!(board.get(&CubeCoordinates::new(2, 0)), Some(Field::new(FieldType::Water, None)));
    assert_eq!(board.segment_index(&CubeCoordinates::new(2, 0)), Some(0));
    assert_eq!(board.get(&CubeCoordinates::new(2, 1)), Some(Field::new(FieldType::Sandbank, None)));
    assert_eq!(board.segment_index(&CubeCoordinates::new(2, 1)), Some(1));
}

#[test]
fn replace_field_changes_one_cell() {
    let mut board = course();
    let before = board.clone();
    assert!(board.replace_field(&CubeCoordinates::new(5, -1), Field::new(FieldType::Island, None)));
    assert_eq!(board.segments[1].fields[2][1], Field::new(FieldType::Island, None));
    assert_eq!(board.segments[0], before.segments[0]);
    for x in 0..4 {
        for y in 0..5 {
            if (x, y) != (2, 1) {
                assert_eq!(board.segments[1].fields[x][y], before.segments[1].fields[x][y]);
            }
        }
    }
    assert!(!board.replace_field(&CubeCoordinates::new(9, 9), Field::new(FieldType::Island, None)));
}

#[test]
fn an_empty_board_holds_nothing() {
    let board = Board::new(vec![], CubeDirection::Left);
    let at = CubeCoordinates::new(0, 0);
    assert_eq!(board.get(&at), None);
    assert_eq!(board.segment_index(&at), None);
    assert_eq!(board.does_field_have_stream(&at), false);
    assert_eq!(board.neighboring_fields(&at), vec![None; 6]);
    assert!(board.segments_are_disjoint());
    assert_eq!(board.find_nearest_field_types(&at, FieldType::Water), Vec::<CubeCoordinates>::new());
}
