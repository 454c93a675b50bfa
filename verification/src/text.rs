//! The texts of the errors.

use vstd::prelude::*;

verus! {

/// The decimal digit for `d`.
pub open spec fn digit(d: nat) -> char {
    (0x30 + d) as char
}

/// `n` in decimal, without leading zeros.
pub open spec fn decimal(n: nat) -> Seq<char>
    decreases n,
{
    if n < 10 {
        seq![digit(n)]
    } else {
        decimal(n / 10).push(digit(n % 10))
    }
}

fn digit_text(d: usize) -> (r: &'static str)
    requires
        d < 10,
    ensures
        r@ == seq![digit(d as nat)],
{
    proof {
        reveal_strlit("0");
        reveal_strlit("1");
        reveal_strlit("2");
        reveal_strlit("3");
        reveal_strlit("4");
        reveal_strlit("5");
        reveal_strlit("6");
        reveal_strlit("7");
        reveal_strlit("8");
        reveal_strlit("9");
    }
    let r = match d {
        0 => "0",
        1 => "1",
        2 => "2",
        3 => "3",
        4 => "4",
        5 => "5",
        6 => "6",
        7 => "7",
        8 => "8",
        _ => "9",
    };
    assert(r@ =~= seq![digit(d as nat)]);
    r
}

/// Appends `n` in decimal to `out`.
pub fn append_decimal(out: &mut String, n: usize)
    ensures
        final(out)@ == old(out)@ + decimal(n as nat),
    decreases n,
{
    if n >= 10 {
        append_decimal(out, n / 10);
    }
    out.append(digit_text(n % 10));
    assert(out@ =~= old(out)@ + decimal(n as nat));
}

/// The text of the error for a weight file of `floats` numbers, which is too few.
pub open spec fn too_small_text(floats: nat) -> Seq<char> {
    "Weight file too small: "@ + decimal(floats) + " floats, expected >= 309633"@
}

/// The text of the error for a window of `got` bytes in place of `expected`.
pub open spec fn wrong_length_text(expected: nat, got: nat) -> Seq<char> {
    "Expected "@ + decimal(expected) + " bytes, got "@ + decimal(got)
}

/// [`too_small_text`] as a string.
pub fn too_small(floats: usize) -> (r: String)
    ensures
        r@ == too_small_text(floats as nat),
{
    let mut out = String::new();
    out.append("Weight file too small: ");
    append_decimal(&mut out, floats);
    out.append(" floats, expected >= 309633");
    assert(out@ =~= too_small_text(floats as nat));
    out
}

/// [`wrong_length_text`] as a string.
pub fn wrong_length(expected: usize, got: usize) -> (r: String)
    ensures
        r@ == wrong_length_text(expected as nat, got as nat),
{
    let mut out = String::new();
    out.append("Expected ");
    append_decimal(&mut out, expected);
    out.append(" bytes, got ");
    append_decimal(&mut out, got);
    assert(out@ =~= wrong_length_text(expected as nat, got as nat));
    out
}

} // verus!
