//! Text building blocks: appending single characters to a `String` and the
//! decimal renderings of integers, as used when values are stringified for
//! templating.

use vstd::prelude::*;

verus! {

/// Relies on String::push: appends the given character to the end of the
/// string, and nothing else.
#[verifier::external_body]
pub fn push_char(s: &mut String, c: char)
    ensures
        final(s)@ == old(s)@.push(c),
{
    s.push(c);
}

/// Whether two string slices hold the same characters.
pub fn str_eq(a: &str, b: &str) -> (r: bool)
    ensures
        r == (a@ == b@),
{
    let la = a.unicode_len();
    let lb = b.unicode_len();
    if la != lb {
        proof {
            assert(a@ == b@ ==> a@.len() == b@.len());
        }
        return false;
    }
    let mut i: usize = 0;
    while i < la
        invariant
            i <= la,
            la == a@.len(),
            la == b@.len(),
            forall|j: int| 0 <= j < i ==> a@[j] == b@[j],
        decreases la - i,
    {
        if a.get_char(i) != b.get_char(i) {
            proof {
                assert(a@[i as int] != b@[i as int]);
            }
            return false;
        }
        i = i + 1;
    }
    proof {
        assert(a@ =~= b@);
    }
    true
}

/// The decimal digit character for `d`.
pub open spec fn spec_digit(d: int) -> char {
    if d == 0 {
        '0'
    } else if d == 1 {
        '1'
    } else if d == 2 {
        '2'
    } else if d == 3 {
        '3'
    } else if d == 4 {
        '4'
    } else if d == 5 {
        '5'
    } else if d == 6 {
        '6'
    } else if d == 7 {
        '7'
    } else if d == 8 {
        '8'
    } else {
        '9'
    }
}

/// The decimal rendering of a natural number, most significant digit first,
/// with no leading zeros (a single `'0'` for zero).
pub open spec fn spec_nat_dec(n: nat) -> Seq<char>
    decreases n,
{
    if n < 10 {
        seq![spec_digit(n as int)]
    } else {
        spec_nat_dec(n / 10).push(spec_digit((n % 10) as int))
    }
}

/// The decimal rendering of a signed number: a leading `'-'` for negatives.
pub open spec fn spec_int_dec(n: int) -> Seq<char> {
    if n < 0 {
        seq!['-'] + spec_nat_dec((-n) as nat)
    } else {
        spec_nat_dec(n as nat)
    }
}

/// The character for a digit below ten.
fn digit_char(d: u64) -> (c: char)
    requires
        d < 10,
    ensures
        c == spec_digit(d as int),
{
    if d == 0 {
        '0'
    } else if d == 1 {
        '1'
    } else if d == 2 {
        '2'
    } else if d == 3 {
        '3'
    } else if d == 4 {
        '4'
    } else if d == 5 {
        '5'
    } else if d == 6 {
        '6'
    } else if d == 7 {
        '7'
    } else if d == 8 {
        '8'
    } else {
        '9'
    }
}

/// Appends the decimal rendering of `n` to `s`.
fn push_nat_dec(s: &mut String, n: u64)
    ensures
        final(s)@ == old(s)@ + spec_nat_dec(n as nat),
    decreases n,
{
    if n < 10 {
        push_char(s, digit_char(n));
        proof {
            assert(final(s)@ =~= old(s)@ + spec_nat_dec(n as nat));
        }
    } else {
        push_nat_dec(s, n / 10);
        push_char(s, digit_char(n % 10));
        proof {
            assert(final(s)@ =~= old(s)@ + spec_nat_dec(n as nat));
        }
    }
}

/// The decimal rendering of an unsigned number.
pub fn u64_to_string(n: u64) -> (r: String)
    ensures
        r@ == spec_nat_dec(n as nat),
{
    let mut s = String::new();
    push_nat_dec(&mut s, n);
    proof {
        assert(s@ =~= spec_nat_dec(n as nat));
    }
    s
}

/// The decimal rendering of an index.
pub fn usize_to_string(n: usize) -> (r: String)
    ensures
        r@ == spec_nat_dec(n as nat),
{
    u64_to_string(n as u64)
}

/// The decimal rendering of a signed number.
pub fn i64_to_string(n: i64) -> (r: String)
    ensures
        r@ == spec_int_dec(n as int),
{
    if n >= 0 {
        u64_to_string(n as u64)
    } else {
        let mut s = String::new();
        push_char(&mut s, '-');
        let magnitude: u64 = (-(n as i128)) as u64;
        proof {
            assert(magnitude as nat == (-(n as int)) as nat);
        }
        push_nat_dec(&mut s, magnitude);
        proof {
            assert(s@ =~= spec_int_dec(n as int));
        }
        s
    }
}

/// The rendering of a boolean: `true` or `false`.
pub open spec fn spec_bool_str(b: bool) -> Seq<char> {
    if b {
        "true"@
    } else {
        "false"@
    }
}

/// The rendering of a boolean value.
pub fn bool_to_string(b: bool) -> (r: String)
    ensures
        r@ == spec_bool_str(b),
{
    if b {
        "true".to_owned()
    } else {
        "false".to_owned()
    }
}

} // verus!
