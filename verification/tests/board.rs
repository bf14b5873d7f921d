use icerunner::{IceRunner, Object, Pos};
use std::cmp::Ordering;
use std::collections::HashSet;
use std::str::FromStr;

#[test]
fn new_board_is_empty() {
    let board = IceRunner::new();
    for pos in Pos::values() {
        assert_eq!(*board.get(pos), None);
    }
    assert_eq!(board.end_point(), Pos::new(0, 0));
}

#[test]
fn written_cell_is_read_back() {
    let mut board = IceRunner::new();
    for (i, pos) in Pos::values().into_iter().enumerate() {
        let obj = [Object::ICE, Object::WALL, Object::START, Object::END][i % 4];
        assert_eq!(*board.get_mut(pos), None);
        *board.get_mut(pos) = Some(obj);
        assert_eq!(*board.get(pos), Some(obj));
        assert_eq!(*board.get_mut(pos), Some(obj));
    }
    for (i, pos) in Pos::values().into_iter().enumerate() {
        let obj = [Object::ICE, Object::WALL, Object::START, Object::END][i % 4];
        assert_eq!(*board.get(pos), Some(obj));
    }
    *board.get_mut(Pos::new(2, 3)) = None;
    assert_eq!(*board.get(Pos::new(2, 3)), None);
    assert_eq!(*board.get(Pos::new(3, 2)), Some(Object::WALL));
}

#[test]
fn cell_is_found_by_column_then_row() {
    let mut board = IceRunner::new();
    *board.get_mut(Pos::new(4, 1)) = Some(Object::WALL);
    assert_eq!(*board.get(Pos::new(4, 1)), Some(Object::WALL));
    assert_eq!(*board.get(Pos::new(1, 4)), None);
    assert_eq!(board.to_string(), "\n*\n\n\n\n");
}

#[test]
fn goal_position_can_be_set() {
    let mut board = IceRunner::new();
    assert_eq!(*board.end_point_mut(), Pos::new(0, 0));
    *board.end_point_mut() = Pos::new(4, 2);
    assert_eq!(board.end_point(), Pos::new(4, 2));
    for pos in Pos::values() {
        assert_eq!(*board.get(pos), None);
    }
}

#[test]
fn boards_are_equal_when_cells_and_goal_are() {
    let text = "S....\n*....\n*....\n*....\nE....\n";
    let one = IceRunner::from_str(text).unwrap();
    let mut other = IceRunner::from_str(text).unwrap();
    assert!(one == other);
    assert!(!(one != other));
    *other.get_mut(Pos::new(4, 4)) = Some(Object::WALL);
    assert!(one != other);
    *other.get_mut(Pos::new(4, 4)) = Some(Object::ICE);
    assert!(one == other);
    *other.get_mut(Pos::new(0, 0)) = None;
    assert!(one != other);
    *other.get_mut(Pos::new(0, 0)) = Some(Object::START);
    assert!(one == other);
    *other.end_point_mut() = Pos::new(4, 0);
    assert!(one != other);
    assert!(IceRunner::new() == IceRunner::new());
}

#[test]
fn equal_boards_are_stored_once() {
    let text = "S....\n*....\n*....\n*....\nE....\n";
    let mut seen = HashSet::new();
    assert!(seen.insert(IceRunner::from_str(text).unwrap()));
    assert!(!seen.insert(IceRunner::from_str(text).unwrap()));
    for (_, after) in IceRunner::from_str(text).unwrap().next() {
        assert!(seen.insert(after));
        assert!(!seen.insert(after));
    }
    assert_eq!(seen.len(), 2);
}

#[test]
fn positions_compare_by_column_then_row() {
    for a in Pos::values() {
        for b in Pos::values() {
            let expected = a.xy().cmp(&b.xy());
            assert_eq!(a.partial_cmp(&b), Some(expected));
            assert_eq!(a.cmp(&b), expected);
            assert_eq!(a < b, expected == Ordering::Less);
            assert_eq!(a == b, expected == Ordering::Equal);
        }
    }
    assert_eq!(Pos::new(0, 4).partial_cmp(&Pos::new(1, 0)), Some(Ordering::Less));
    assert_eq!(Pos::new(2, 3).partial_cmp(&Pos::new(2, 1)), Some(Ordering::Greater));
    assert_eq!(Pos::new(2, 3).partial_cmp(&Pos::new(2, 3)), Some(Ordering::Equal));
}
