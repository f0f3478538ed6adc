use vstd::prelude::*;

verus! {

/// Axis index of the input coordinate that feeds the first output axis.
pub open spec fn first_axis(code: u8) -> int {
    (code & 3) as int
}

/// Axis index of the input coordinate that feeds the second output axis.
pub open spec fn second_axis(code: u8) -> int {
    ((code >> 2u8) & 3) as int
}

/// Sign applied to output axis `k` (0, 1 or 2): bit `4 + k` of the code.
pub open spec fn axis_sign(code: u8, k: u8) -> int {
    if (code >> (4 + k) as u8) & 1 == 1 {
        -1
    } else {
        1
    }
}

/// A code either is zero (the identity) or selects two distinct input axes.
pub open spec fn is_valid_rotation(code: u8) -> bool {
    code == 0 || (first_axis(code) < 3 && second_axis(code) < 3 && first_axis(code)
        != second_axis(code))
}

pub open spec fn component(p: (int, int, int), i: int) -> int {
    if i == 0 {
        p.0
    } else if i == 1 {
        p.1
    } else {
        p.2
    }
}

/// The signed axis permutation that a valid code stands for, applied to `p`.
pub open spec fn rotated(p: (int, int, int), code: u8) -> (int, int, int) {
    if code == 0 {
        p
    } else {
        let a = first_axis(code);
        let b = second_axis(code);
        (
            axis_sign(code, 0) * component(p, a),
            axis_sign(code, 1) * component(p, b),
            axis_sign(code, 2) * component(p, 3 - a - b),
        )
    }
}

pub open spec fn as_int3(p: (i32, i32, i32)) -> (int, int, int) {
    (p.0 as int, p.1 as int, p.2 as int)
}

/// Tells whether `code` is a rotation code that `rotate` accepts.
pub fn valid_rotation(code: u8) -> (r: bool)
    ensures
        r == is_valid_rotation(code),
{
    let a = code & 3;
    let b = (code >> 2u8) & 3;
    code == 0 || (a < 3 && b < 3 && a != b)
}

fn sign_bit(code: u8, k: u8) -> (s: i32)
    requires
        k < 3,
    ensures
        s as int == axis_sign(code, k),
{
    if (code >> (4 + k)) & 1 == 1 {
        -1
    } else {
        1
    }
}

fn pick(p: (i32, i32, i32), i: u8) -> (r: i32)
    requires
        i < 3,
    ensures
        r as int == component(as_int3(p), i as int),
{
    if i == 0 {
        p.0
    } else if i == 1 {
        p.1
    } else {
        p.2
    }
}

/// Applies the rotation encoded in `code` to `p`.
pub fn rotate(p: (i32, i32, i32), code: u8) -> (r: (i32, i32, i32))
    requires
        is_valid_rotation(code),
        p.0 > i32::MIN,
        p.1 > i32::MIN,
        p.2 > i32::MIN,
    ensures
        as_int3(r) == rotated(as_int3(p), code),
{
    if code == 0 {
        return p;
    }
    let a = code & 3;
    let b = (code >> 2u8) & 3;
    assert(3 - a - b < 3) by {
        assert(a < 3 && b < 3 && a != b);
    }
    let c = 3 - a - b;
    (sign_bit(code, 0) * pick(p, a), sign_bit(code, 1) * pick(p, b), sign_bit(code, 2) * pick(p, c))
}

/// The zero code leaves every position where it is.
pub proof fn lemma_zero_code_is_identity(p: (int, int, int))
    ensures
        rotated(p, 0) == p,
{
}

} // verus!
