//! Small helpers over byte strings.
//!
//! Shader source and the names inside it are handled as bytes; the grammar
//! subset this crate recognizes is ASCII-only.

use vstd::prelude::*;

verus! {

/// Whether two byte strings hold the same bytes.
pub fn bytes_eq(a: &[u8], b: &[u8]) -> (r: bool)
    ensures
        r <==> a@ == b@,
{
    if a.len() != b.len() {
        proof {
            assert(a@.len() != b@.len());
        }
        return false;
    }
    let mut i: usize = 0;
    while i < a.len()
        invariant
            i <= a@.len(),
            a@.len() == b@.len(),
            forall|j: int| 0 <= j < i ==> a@[j] == b@[j],
        decreases a@.len() - i,
    {
        if a[i] != b[i] {
            return false;
        }
        i += 1;
    }
    proof {
        assert(a@ =~= b@);
    }
    true
}

/// Whether `b` can start an identifier: a letter or an underscore.
pub fn is_ident_start(b: u8) -> (r: bool)
    ensures
        r == spec_is_ident_start(b),
{
    (b >= 97 && b <= 122) || (b >= 65 && b <= 90) || b == 95
}

pub open spec fn spec_is_ident_start(b: u8) -> bool {
    (97 <= b <= 122) || (65 <= b <= 90) || b == 95
}

/// Whether `b` can continue an identifier: a letter, a digit or an underscore.
pub fn is_ident_continue(b: u8) -> (r: bool)
    ensures
        r == spec_is_ident_continue(b),
{
    is_ident_start(b) || (b >= 48 && b <= 57)
}

pub open spec fn spec_is_ident_continue(b: u8) -> bool {
    spec_is_ident_start(b) || (48 <= b <= 57)
}

/// Whether `b` is a decimal digit.
pub fn is_digit(b: u8) -> (r: bool)
    ensures
        r == spec_is_digit(b),
{
    b >= 48 && b <= 57
}

pub open spec fn spec_is_digit(b: u8) -> bool {
    48 <= b <= 57
}

/// Whether `b` is blank: space, tab, carriage return or newline.
pub fn is_space(b: u8) -> (r: bool)
    ensures
        r == spec_is_space(b),
{
    b == 32 || b == 9 || b == 13 || b == 10
}

pub open spec fn spec_is_space(b: u8) -> bool {
    b == 32 || b == 9 || b == 13 || b == 10
}

} // verus!
