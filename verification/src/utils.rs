//! Small helpers: rounding an offset up to an alignment, and reading the
//! NUL-padded name of a segment.

use vstd::prelude::*;

verus! {

/// Relies on String::push: appends the given character to the end of the
/// string.
pub assume_specification[ String::push ](s: &mut String, ch: char)
    ensures
        final(s)@ == old(s)@.push(ch),
;

/// The first index at or after `i` where `s` holds a zero byte, or `s.len()`
/// if there is none.
pub open spec fn first_zero(s: Seq<u8>, i: int) -> int
    decreases s.len() - i,
{
    if i < 0 || i >= s.len() {
        s.len() as int
    } else if s[i] == 0 {
        i
    } else {
        first_zero(s, i + 1)
    }
}

/// The characters of `s` before its first zero byte, each byte read as one
/// character, as a segment name is displayed.
pub open spec fn segname_chars(s: Seq<u8>) -> Seq<char> {
    Seq::new(first_zero(s, 0) as nat, |i: int| s[i] as char)
}

/// Rounds `x` up to the next multiple of `y`: the least multiple of `y` that
/// is at least `x`.
pub open spec fn spec_round_up(x: int, y: int) -> int {
    ((x + y - 1) / y) * y
}

/// Rounds `x` up to the next multiple of `y`.
pub fn round_up_u64(x: u64, y: u64) -> (r: u64)
    requires
        y > 0,
        x + y - 1 <= u64::MAX,
    ensures
        r == spec_round_up(x as int, y as int),
        r % y == 0,
        x <= r,
        r - x < y,
{
    let t = x + (y - 1);
    proof {
        let ti = t as int;
        let yi = y as int;
        assert(ti / yi * yi <= ti && ti - ti / yi * yi < yi && (ti / yi * yi) % yi == 0)
            by (nonlinear_arith)
            requires
                yi > 0,
                ti >= 0,
        ;
        assert(t / y == ti / yi && (t / y * y) == ti / yi * yi) by (nonlinear_arith)
            requires
                yi > 0,
                ti >= 0,
                t == ti,
                y == yi,
        ;
    }
    (t / y) * y
}

/// Reads a segment name: the bytes before the first NUL, one character each.
pub fn get_segname(segname: &[u8; 16]) -> (r: String)
    ensures
        r@ == segname_chars(segname@),
{
    let mut name = String::new();
    let mut i: usize = 0;
    while i < 16 && segname[i] != 0
        invariant
            0 <= i <= 16,
            segname@.len() == 16,
            forall|k: int| 0 <= k < i ==> segname@[k] != 0,
            name@ =~= Seq::new(i as nat, |k: int| segname@[k] as char),
        decreases 16 - i,
    {
        name.push(segname[i] as char);
        proof {
            assert(name@ =~= Seq::new((i + 1) as nat, |k: int| segname@[k] as char));
        }
        i = i + 1;
    }
    proof {
        lemma_first_zero_of_prefix(segname@, i as int);
        assert(name@ =~= segname_chars(segname@));
    }
    name
}

/// If every byte before `i` is non-zero and either `i` is the end or byte `i`
/// is zero, then `i` is the first zero position.
proof fn lemma_first_zero_of_prefix(s: Seq<u8>, i: int)
    requires
        0 <= i <= s.len(),
        forall|k: int| 0 <= k < i ==> s[k] != 0,
        i < s.len() ==> s[i] == 0,
    ensures
        first_zero(s, 0) == i,
{
    lemma_first_zero_step(s, 0, i);
}

pub proof fn lemma_first_zero_step(s: Seq<u8>, j: int, i: int)
    requires
        0 <= j <= i <= s.len(),
        forall|k: int| j <= k < i ==> s[k] != 0,
        i < s.len() ==> s[i] == 0,
    ensures
        first_zero(s, j) == i,
    decreases i - j,
{
    if j < i {
        lemma_first_zero_step(s, j + 1, i);
    }
}

} // verus!
