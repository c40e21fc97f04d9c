//! Normalising raw puzzle text into a string of digits.

use crate::encoder::{digit_value, well_formed_puzzle};
use crate::geometry::{geometry_for_len, geometry_of_len};
use crate::lp_format::{digit_char, digit_str};
use vstd::prelude::*;
use vstd::string::{StrSliceExecFns, StringExecFns};

verus! {

/// Whether `c` is a decimal digit `0`..`9`.
pub open spec fn is_digit(c: char) -> bool {
    '0' <= c && c <= '9'
}

/// The digits of `s` in order, with each `.` read as `0` and every other
/// character dropped.
pub open spec fn normalized(s: Seq<char>) -> Seq<char>
    decreases s.len(),
{
    if s.len() == 0 {
        Seq::empty()
    } else {
        let prev = normalized(s.drop_last());
        let c = s.last();
        if c == '.' {
            prev.push('0')
        } else if is_digit(c) {
            prev.push(c)
        } else {
            prev
        }
    }
}

/// Normalises raw puzzle text: each `.` becomes `0`, digits are kept, and
/// everything else (whitespace, separators) is dropped.
pub fn normalize_puzzle(raw: &str) -> (r: String)
    ensures
        r@ == normalized(raw@),
{
    let len = raw.unicode_len();
    let mut out = String::new();
    let mut i: usize = 0;
    while i < len
        invariant
            len == raw@.len(),
            i <= len,
            out@ == normalized(raw@.subrange(0, i as int)),
        decreases len - i,
    {
        proof {
            reveal_strlit("0");
        }
        let c = raw.get_char(i);
        let ghost prefix = raw@.subrange(0, i as int + 1);
        assert(prefix.drop_last() =~= raw@.subrange(0, i as int));
        assert(prefix.last() == c);
        if c == '.' {
            out.append("0");
            assert(out@ =~= normalized(prefix));
        } else if '0' <= c && c <= '9' {
            let d = (c as u32 - '0' as u32) as u64;
            out.append(digit_str(d));
            assert(digit_char(d as nat) == c);
            assert(out@ =~= normalized(prefix));
        }
        i = i + 1;
    }
    assert(raw@.subrange(0, len as int) =~= raw@);
    out
}

/// Whether `puzzle` meets the input contract of the encoder: when its length
/// is supported, every cell is a digit from 0 to the board size.
pub fn is_well_formed_puzzle(puzzle: &str) -> (r: bool)
    ensures
        r == well_formed_puzzle(puzzle@),
{
    let len = puzzle.unicode_len();
    let g = match geometry_for_len(len) {
        Some(g) => g,
        None => {
            return true;
        },
    };
    let top = g.size as u32;
    let mut i: usize = 0;
    while i < len
        invariant
            len == puzzle@.len(),
            i <= len,
            top == g.size,
            g.size <= 9,
            geometry_of_len(len as int) == Some(g),
            forall|k: int| 0 <= k < i ==> 0 <= #[trigger] digit_value(puzzle@[k]) <= g.size,
        decreases len - i,
    {
        let c = puzzle.get_char(i);
        if c < '0' || (c as u32) - ('0' as u32) > top {
            assert(!(0 <= digit_value(puzzle@[i as int]) <= g.size));
            return false;
        }
        i = i + 1;
    }
    true
}

} // verus!
