use vstd::prelude::*;
use crate::piece::Spin;

verus! {

/// The rows a clear of `lines` rows sends before back-to-back and combo
/// bonuses: a full spin doubles a one-, two- or three-row clear (2, 4, 6
/// rows; 0, 1, 2 without), and any spin makes a four-row clear worth 10
/// rows instead of 4.
pub open spec fn base_rows(lines: u8, spin: Spin) -> u8 {
    if lines == 0 {
        0
    } else if lines == 1 {
        if spin == Spin::Normal { 2 } else { 0 }
    } else if lines == 2 {
        if spin == Spin::Normal { 4 } else { 1 }
    } else if lines == 3 {
        if spin == Spin::Normal { 6 } else { 2 }
    } else {
        if spin != Spin::NoSpin { 10 } else { 4 }
    }
}

/// The base attack of a clear of `lines` rows (at most four) with `spin`.
pub fn base_damage(lines: u8, spin: Spin) -> (r: u8)
    requires
        lines <= 4,
    ensures
        r == base_rows(lines, spin),
{
    match lines {
        0 => 0,
        1 => if spin == Spin::Normal { 2 } else { 0 },
        2 => if spin == Spin::Normal { 4 } else { 1 },
        3 => if spin == Spin::Normal { 6 } else { 2 },
        _ => if spin != Spin::NoSpin { 10 } else { 4 },
    }
}

} // verus!
