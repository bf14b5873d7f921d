use icerunner::{Direction, Object, Pos};

#[test]
fn positions_come_row_by_row() {
    let all = Pos::values();
    assert_eq!(all.len(), 25);
    for (i, pos) in all.iter().enumerate() {
        assert_eq!(pos.xy(), (i % 5, i / 5));
    }
    assert_eq!(all[0], Pos::new(0, 0));
    assert_eq!(all[1], Pos::new(1, 0));
    assert_eq!(all[4], Pos::new(4, 0));
    assert_eq!(all[5], Pos::new(0, 1));
    assert_eq!(all[24], Pos::new(4, 4));
}

#[test]
fn position_keeps_its_coordinates() {
    for x in 0..5 {
        for y in 0..5 {
            assert_eq!(Pos::new(x, y).xy(), (x, y));
        }
    }
}

#[test]
fn step_moves_by_one_cell() {
    let mid = Pos::new(2, 3);
    assert_eq!(mid.step(Direction::North), Some(Pos::new(2, 2)));
    assert_eq!(mid.step(Direction::South), Some(Pos::new(2, 4)));
    assert_eq!(mid.step(Direction::West), Some(Pos::new(1, 3)));
    assert_eq!(mid.step(Direction::East), Some(Pos::new(3, 3)));
}

#[test]
fn step_does_not_leave_the_board() {
    for i in 0..5 {
        assert_eq!(Pos::new(i, 0).step(Direction::North), None);
        assert_eq!(Pos::new(i, 4).step(Direction::South), None);
        assert_eq!(Pos::new(0, i).step(Direction::West), None);
        assert_eq!(Pos::new(4, i).step(Direction::East), None);
        assert_eq!(Pos::new(i, 4).step(Direction::North), Some(Pos::new(i, 3)));
        assert_eq!(Pos::new(i, 0).step(Direction::South), Some(Pos::new(i, 1)));
        assert_eq!(Pos::new(4, i).step(Direction::West), Some(Pos::new(3, i)));
        assert_eq!(Pos::new(0, i).step(Direction::East), Some(Pos::new(1, i)));
    }
}

#[test]
fn step_and_step_back_return() {
    for pos in Pos::values() {
        for dir in Direction::values() {
            if let Some(next) = pos.step(dir) {
                assert_eq!(next.step(dir.rev()), Some(pos));
            }
        }
    }
}

#[test]
fn position_prints_its_coordinates() {
    assert_eq!(Pos::new(0, 0).to_string(), "(0,0)");
    assert_eq!(Pos::new(3, 4).to_string(), "(3,4)");
    assert_eq!(Pos::new(4, 1).to_string(), "(4,1)");
    assert_eq!(Pos::new(2, 2).to_string(), "(2,2)");
}

#[test]
fn positions_are_ordered_by_column_then_row() {
    assert!(Pos::new(0, 4) < Pos::new(1, 0));
    assert!(Pos::new(2, 1) < Pos::new(2, 3));
    assert!(Pos::new(3, 3) > Pos::new(3, 2));
    assert!(Pos::new(3, 3) <= Pos::new(3, 3));
    assert_eq!(Pos::new(1, 2), Pos::new(1, 2));
    assert_ne!(Pos::new(1, 2), Pos::new(2, 1));
    assert_eq!(Pos::new(1, 2).max(Pos::new(0, 4)), Pos::new(1, 2));
}

#[test]
fn first_and_last_row_are_at_the_edge() {
    for pos in Pos::values() {
        let (_, y) = pos.xy();
        assert_eq!(pos.at_edge(), y == 0 || y == 4);
    }
}

#[test]
fn raised_positions() {
    for pos in Pos::values() {
        let (x, y) = pos.xy();
        let expected = y == 0 || y == 4 || ((x == 0 || x == 4) && y == 2);
        assert_eq!(pos.is_raised(), expected);
    }
    assert!(Pos::new(0, 2).is_raised());
    assert!(Pos::new(2, 0).is_raised());
    assert!(!Pos::new(2, 2).is_raised());
    assert!(!Pos::new(0, 1).is_raised());
}

#[test]
fn directions_come_in_a_fixed_order() {
    assert_eq!(
        Direction::values(),
        [Direction::North, Direction::South, Direction::West, Direction::East]
    );
}

#[test]
fn reverse_points_the_other_way() {
    assert_eq!(Direction::North.rev(), Direction::South);
    assert_eq!(Direction::South.rev(), Direction::North);
    assert_eq!(Direction::West.rev(), Direction::East);
    assert_eq!(Direction::East.rev(), Direction::West);
    for dir in Direction::values() {
        assert_eq!(dir.rev().rev(), dir);
        assert_ne!(dir.rev(), dir);
    }
}

#[test]
fn direction_prints_an_arrow() {
    assert_eq!(Direction::North.to_string(), "\u{2191}");
    assert_eq!(Direction::South.to_string(), "\u{2193}");
    assert_eq!(Direction::West.to_string(), "\u{2190}");
    assert_eq!(Direction::East.to_string(), "\u{2192}");
}

#[test]
fn object_kinds() {
    let all = [Object::ICE, Object::WALL, Object::START, Object::END];
    for obj in all {
        assert_eq!(obj.is_ice(), obj == Object::ICE);
        assert_eq!(obj.is_obstacle(), obj == Object::WALL);
        assert_eq!(obj.is_start(), obj == Object::START);
        assert_eq!(obj.is_end(), obj == Object::END);
    }
    assert!(Object::ICE.is_ice());
    assert!(Object::WALL.is_obstacle());
    assert!(Object::START.is_start());
    assert!(Object::END.is_end());
}

#[test]
fn object_symbols() {
    assert_eq!(Object::ICE.to_string(), ".");
    assert_eq!(Object::WALL.to_string(), "*");
    assert_eq!(Object::START.to_string(), "S");
    assert_eq!(Object::END.to_string(), "E");
}

#[test]
fn object_is_read_from_its_symbol() {
    assert_eq!(Object::from_char('.'), Some(Object::ICE));
    assert_eq!(Object::from_char('*'), Some(Object::WALL));
    assert_eq!(Object::from_char('S'), Some(Object::START));
    assert_eq!(Object::from_char('E'), Some(Object::END));
    for c in ['?', ' ', '\n', 's', 'e', '0', '\u{2191}'] {
        assert_eq!(Object::from_char(c), None);
    }
    for obj in [Object::ICE, Object::WALL, Object::START, Object::END] {
        let symbol = obj.to_string().chars().next().unwrap();
        assert_eq!(Object::from_char(symbol), Some(obj));
    }
}
