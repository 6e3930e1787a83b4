use socha::board::Board;
use socha::coordinate::{CubeCoordinates, CubeDirection};
use socha::field::{Field, FieldType};
use socha::search::names;
use socha::segment::Segment;

fn lone(fields: Vec<Vec<Field>>) -> Board {
    Board::new(
        vec![Segment { direction: CubeDirection::Right, center: CubeCoordinates::new(0, 0), fields }],
        CubeDirection::DownRight,
    )
}

fn cells(list: &[(i32, i32)]) -> Vec<CubeCoordinates> {
    list.iter().map(|&(q, r)| CubeCoordinates::new(q, r)).collect()
}

#[test]
fn test_find_nearest_field_types() {
    let segment: Vec<Segment> = vec![Segment {
        direction: CubeDirection::Right,
        center: CubeCoordinates::new(0, 0),
        fields: vec![
            vec![
                Field::new(FieldType::Water, None),
                Field::new(FieldType::Sandbank, None),
                Field::new(FieldType::Sandbank, None),
                Field::new(FieldType::Sandbank, None),
                Field::new(FieldType::Water, None),
            ],
            vec![
                Field::new(FieldType::Water, None),
                Field::new(FieldType::Sandbank, None),
                Field::new(FieldType::Sandbank, None),
                Field::new(FieldType::Sandbank, None),
                Field::new(FieldType::Water, None),
            ],
            vec![
                Field::new(FieldType::Water, None),
                Field::new(FieldType::Sandbank, None),
                Field::new(FieldType::Sandbank, None),
                Field::new(FieldType::Sandbank, None),
                Field::new(FieldType::Water, None),
            ],
            vec![
                Field::new(FieldType::Water, None),
                Field::new(FieldType::Water, None),
                Field::new(FieldType::Water, None),
                Field::new(FieldType::Water, None),
                Field::new(FieldType::Water, None),
            ],
        ],
    }];
    let mut board: Board = Board::new(segment, CubeDirection::DownRight);

    assert_eq!(
        board.find_nearest_field_types(&CubeCoordinates::new(0, 0), FieldType::Sandbank),
        vec![CubeCoordinates::new(0, 0)]
    );

    board.segments[0].fields[1][2] = Field::new(FieldType::Water, None);

    assert_eq!(
        board.find_nearest_field_types(&CubeCoordinates::new(0, 0), FieldType::Sandbank),
        vec![
            CubeCoordinates::new(1, 0),
            CubeCoordinates::new(0, 1),
            CubeCoordinates::new(-1, 1),
            CubeCoordinates::new(-1, 0),
            CubeCoordinates::new(0, -1),
            CubeCoordinates::new(1, -1)
        ]
    );
    assert_eq!(
        board.find_nearest_field_types(&CubeCoordinates::new(2, 0), FieldType::Sandbank),
        vec![CubeCoordinates::new(1, 0)]
    );

    assert_eq!(
        board.find_nearest_field_types(&CubeCoordinates::new(1, 0), FieldType::Water),
        vec![
            CubeCoordinates::new(2, 0),
            CubeCoordinates::new(1, 1),
            CubeCoordinates::new(0, 0),
            CubeCoordinates::new(2, -1)
        ]
    );
}

#[test]
fn absent_type_is_not_found() {
    let board = lone(vec![vec![Field::new(FieldType::Water, None); 5]; 4]);
    assert_eq!(board.find_nearest_field_types(&CubeCoordinates::new(0, 0), FieldType::Goal), Vec::<CubeCoordinates>::new());
    assert_eq!(board.find_nearest_field_types(&CubeCoordinates::new(2, -2), FieldType::Island), Vec::<CubeCoordinates>::new());
}

#[test]
fn second_ring_is_found_once_and_in_order() {
    let mut fields = vec![vec![Field::new(FieldType::Water, None); 5]; 4];
    for (x, y) in [(3, 2), (3, 3), (3, 1), (3, 4), (2, 4), (1, 4), (0, 3), (0, 1), (1, 0), (2, 0), (3, 0)] {
        fields[x][y] = Field::new(FieldType::Sandbank, None);
    }
    let board = lone(fields);
    assert_eq!(
        board.find_nearest_field_types(&CubeCoordinates::new(0, 0), FieldType::Sandbank),
        cells(&[
            (2, 0),
            (1, 1),
            (2, -1),
            (0, 2),
            (-1, 2),
            (-2, 2),
            (-2, 1),
            (-1, -1),
            (0, -2),
            (1, -2),
            (2, -2)
        ])
    );
}

#[test]
fn search_may_start_off_the_board() {
    let board = lone(vec![vec![Field::new(FieldType::Water, None); 5]; 4]);
    assert_eq!(
        board.find_nearest_field_types(&CubeCoordinates::new(-2, 0), FieldType::Water),
        cells(&[(-1, 0), (-2, 1), (-1, -1)])
    );
    assert_eq!(
        board.find_nearest_field_types(&CubeCoordinates::new(0, -3), FieldType::Water),
        cells(&[(0, -2), (-1, -2)])
    );
    // No neighbour of the start is on the board: nothing can be reached.
    assert_eq!(board.find_nearest_field_types(&CubeCoordinates::new(-3, 0), FieldType::Water), Vec::<CubeCoordinates>::new());
}

#[test]
fn search_crosses_segments() {
    let mut first = vec![vec![Field::new(FieldType::Water, None); 5]; 4];
    first[2][1] = Field::new(FieldType::Sandbank, None);
    first[3][3] = Field::new(FieldType::Passenger, Some(1));
    let mut second = vec![vec![Field::new(FieldType::Water, None); 5]; 4];
    second[0][0] = Field::new(FieldType::Island, None);
    second[3][4] = Field::new(FieldType::Goal, None);
    let board = Board::new(
        vec![
            Segment { direction: CubeDirection::Right, center: CubeCoordinates::new(0, 0), fields: first },
            Segment { direction: CubeDirection::Right, center: CubeCoordinates::new(4, 0), fields: second },
        ],
        CubeDirection::DownRight,
    );
    let start = CubeCoordinates::new(0, 0);
    assert_eq!(board.find_nearest_field_types(&start, FieldType::Island), cells(&[(3, -2)]));
    assert_eq!(board.find_nearest_field_types(&start, FieldType::Goal), cells(&[(4, 2)]));
    assert_eq!(board.find_nearest_field_types(&start, FieldType::Sandbank), cells(&[(1, -1)]));
    assert_eq!(board.find_nearest_field_types(&start, FieldType::Passenger), cells(&[(1, 1)]));
    assert_eq!(board.find_nearest_field_types(&start, FieldType::Water), cells(&[(0, 0)]));
}

#[test]
fn matches_from_keeps_order_and_skips_the_front() {
    let mut fields = vec![vec![Field::new(FieldType::Water, None); 5]; 4];
    fields[1][2] = Field::new(FieldType::Goal, None);
    fields[2][2] = Field::new(FieldType::Goal, None);
    let board = lone(fields);
    let list = cells(&[(0, 0), (0, 1), (1, 0), (9, 9), (0, 0)]);
    assert_eq!(board.matches_from(&list, 0, FieldType::Goal), cells(&[(0, 0), (1, 0), (0, 0)]));
    assert_eq!(board.matches_from(&list, 1, FieldType::Goal), cells(&[(1, 0), (0, 0)]));
    assert_eq!(board.matches_from(&list, 5, FieldType::Goal), Vec::<CubeCoordinates>::new());
    assert_eq!(board.matches_from(&list, 0, FieldType::Water), cells(&[(0, 1)]));
}

#[test]
fn discover_around_adds_new_neighbors_at_the_end() {
    let board = lone(vec![vec![Field::new(FieldType::Water, None); 5]; 4]);
    let mut list = cells(&[(2, 0), (1, 0)]);
    board.discover_around(&mut list, 0);
    // Of the six neighbours of (2, 0) three are on the board, and (1, 0) is known already.
    assert_eq!(list, cells(&[(2, 0), (1, 0), (1, 1), (2, -1)]));
    assert!(names(&list, &CubeCoordinates::new(1, 1)));
    assert!(!names(&list, &CubeCoordinates::new(3, 0)));
}
