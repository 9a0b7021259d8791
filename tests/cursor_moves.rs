use todo_tui::cursor::{move_cursor, valid_index, Move};

#[test]
fn moves_on_empty_select_nothing() {
    for m in [Move::First, Move::Last, Move::Next, Move::Prev] {
        assert_eq!(move_cursor(None, 0, m), None);
        assert_eq!(move_cursor(Some(3), 0, m), None);
    }
}

#[test]
fn next_and_prev_saturate() {
    assert_eq!(move_cursor(Some(2), 3, Move::Next), Some(2));
    assert_eq!(move_cursor(Some(0), 3, Move::Next), Some(1));
    assert_eq!(move_cursor(Some(0), 3, Move::Prev), Some(0));
    assert_eq!(move_cursor(Some(2), 3, Move::Prev), Some(1));
    assert_eq!(move_cursor(None, 3, Move::Next), Some(0));
    assert_eq!(move_cursor(None, 3, Move::Prev), Some(2));
}

#[test]
fn first_and_last() {
    assert_eq!(move_cursor(Some(1), 5, Move::First), Some(0));
    assert_eq!(move_cursor(None, 5, Move::Last), Some(4));
}

#[test]
fn stale_cursor_is_clamped() {
    assert_eq!(move_cursor(Some(9), 3, Move::Next), Some(2));
    assert_eq!(move_cursor(Some(9), 3, Move::Prev), Some(2));
    assert_eq!(move_cursor(Some(usize::MAX), 3, Move::Next), Some(2));
}

#[test]
fn any_sequence_of_moves_stays_in_bounds() {
    let moves = [Move::Next, Move::Next, Move::Last, Move::Next, Move::Prev, Move::First, Move::Prev];
    for len in 0..4usize {
        let mut c = None;
        for m in moves {
            c = move_cursor(c, len, m);
            assert!(c.map_or(true, |i| i < len));
            assert_eq!(c.is_none(), len == 0);
        }
    }
}

#[test]
fn valid_index_checks_bounds() {
    assert_eq!(valid_index(Some(1), 2), Some(1));
    assert_eq!(valid_index(Some(2), 2), None);
    assert_eq!(valid_index(None, 2), None);
}
