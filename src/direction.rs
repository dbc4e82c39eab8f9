use vstd::prelude::*;

use crate::position::point;

verus! {

/// The direction a key asks for: `w` (119) up, `s` (115) down, `a` (97)
/// left, `d` (100) right.
pub open spec fn requested(key: Option<u8>) -> Option<point> {
    match key {
        Some(k) => if k == 100u8 {
            Some(point(0, 1))
        } else if k == 97u8 {
            Some(point(0, -1i32))
        } else if k == 115u8 {
            Some(point(1, 0))
        } else if k == 119u8 {
            Some(point(-1i32, 0))
        } else {
            None
        },
        None => None,
    }
}

/// Whether `a` points exactly against `b`.
pub open spec fn reverses(a: point, b: point) -> bool {
    a.0 + b.0 == 0 && a.1 + b.1 == 0
}

/// The direction after a key press (or none): the requested direction,
/// unless there is none or it would turn the snake straight back.
pub open spec fn resolved(current: point, key: Option<u8>) -> point {
    match requested(key) {
        Some(d) => if reverses(d, current) {
            current
        } else {
            d
        },
        None => current,
    }
}

/// Maps a pending key press to the next direction of travel. Unknown keys,
/// no key, and a request to reverse keep `current`.
pub fn next_direction(current: point, key: Option<u8>) -> (r: point)
    ensures
        r == resolved(current, key),
{
    let proposed = match key {
        Some(k) => if k == 100u8 {
            point(0, 1)
        } else if k == 97u8 {
            point(0, -1)
        } else if k == 115u8 {
            point(1, 0)
        } else if k == 119u8 {
            point(-1, 0)
        } else {
            current
        },
        None => current,
    };
    let back = (proposed.0 as i64) + (current.0 as i64) == 0 && (proposed.1 as i64) + (
    current.1 as i64) == 0;
    if back {
        current
    } else {
        proposed
    }
}

/// A request for the exact opposite of the current direction leaves the
/// direction unchanged.
pub proof fn lemma_reversal_ignored(current: point, key: Option<u8>)
    requires
        requested(key) is Some,
        reverses(requested(key)->Some_0, current),
    ensures
        resolved(current, key) == current,
{
}

} // verus!
