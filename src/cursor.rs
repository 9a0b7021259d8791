use vstd::prelude::*;

verus! {

/// One movement of a selection cursor.
#[derive(Clone, Copy, Debug, PartialEq, Eq, Structural)]
pub enum Move {
    First,
    Last,
    Next,
    Prev,
}

/// A cursor selects nothing, or a valid index into a sequence of length `len`.
pub open spec fn cursor_valid(c: Option<usize>, len: nat) -> bool {
    match c {
        None => true,
        Some(i) => i < len,
    }
}

/// The cursor as an index that is valid for a sequence of length `len`, if any.
pub open spec fn selected_index(c: Option<usize>, len: nat) -> Option<usize> {
    match c {
        Some(i) if i < len => Some(i),
        _ => None,
    }
}

/// Where a cursor lands after one movement over a sequence of length `len`.
/// `Next` and `Prev` saturate at the ends; on an empty sequence nothing is selected.
pub open spec fn moved(c: Option<usize>, len: nat, m: Move) -> Option<usize> {
    if len == 0 {
        None
    } else {
        match m {
            Move::First => Some(0),
            Move::Last => Some((len - 1) as usize),
            Move::Next => match c {
                None => Some(0),
                Some(i) => if i + 1 < len {
                    Some((i + 1) as usize)
                } else {
                    Some((len - 1) as usize)
                },
            },
            Move::Prev => match c {
                None => Some((len - 1) as usize),
                Some(i) => if i == 0 {
                    Some(0)
                } else if i - 1 < len {
                    Some((i - 1) as usize)
                } else {
                    Some((len - 1) as usize)
                },
            },
        }
    }
}

/// Where a cursor lands after a whole sequence of movements.
pub open spec fn moved_all(c: Option<usize>, len: nat, ms: Seq<Move>) -> Option<usize>
    decreases ms.len(),
{
    if ms.len() == 0 {
        c
    } else {
        moved_all(moved(c, len, ms[0]), len, ms.drop_first())
    }
}

/// Moves a cursor over a sequence of length `len`.
pub fn move_cursor(c: Option<usize>, len: usize, m: Move) -> (r: Option<usize>)
    ensures
        r == moved(c, len as nat, m),
        cursor_valid(r, len as nat),
{
    if len == 0 {
        return None;
    }
    match m {
        Move::First => Some(0),
        Move::Last => Some(len - 1),
        Move::Next => match c {
            None => Some(0),
            Some(i) => if i < len - 1 {
                Some(i + 1)
            } else {
                Some(len - 1)
            },
        },
        Move::Prev => match c {
            None => Some(len - 1),
            Some(i) => if i == 0 {
                Some(0)
            } else if i - 1 < len {
                Some(i - 1)
            } else {
                Some(len - 1)
            },
        },
    }
}

/// The cursor, if it selects a valid index into a sequence of length `len`.
pub fn valid_index(c: Option<usize>, len: usize) -> (r: Option<usize>)
    ensures
        r == selected_index(c, len as nat),
{
    match c {
        Some(i) => if i < len {
            Some(i)
        } else {
            None
        },
        None => None,
    }
}

/// Whatever the starting cursor, any sequence of movements over a sequence of
/// length `len` ends on no selection or on an index below `len`, and on no
/// selection exactly when the sequence is empty (given at least one movement).
pub proof fn lemma_moves_stay_in_bounds(c: Option<usize>, len: nat, ms: Seq<Move>)
    requires
        cursor_valid(c, len),
    ensures
        cursor_valid(moved_all(c, len, ms), len),
        ms.len() > 0 ==> (moved_all(c, len, ms) is None <==> len == 0),
    decreases ms.len(),
{
    if ms.len() > 0 {
        lemma_moves_stay_in_bounds(moved(c, len, ms[0]), len, ms.drop_first());
    }
}

} // verus!
