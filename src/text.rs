//! Small pieces of target text: registers, line breaks and headers.

use vstd::prelude::*;

verus! {

/// The character of a decimal digit.
pub open spec fn digit_char(d: nat) -> char {
    if d == 0 {
        '0'
    } else if d == 1 {
        '1'
    } else if d == 2 {
        '2'
    } else if d == 3 {
        '3'
    } else if d == 4 {
        '4'
    } else if d == 5 {
        '5'
    } else if d == 6 {
        '6'
    } else if d == 7 {
        '7'
    } else if d == 8 {
        '8'
    } else {
        '9'
    }
}

/// The decimal notation of `n`, most significant digit first, no leading zeros.
pub open spec fn decimal(n: nat) -> Seq<char>
    decreases n,
{
    if n < 10 {
        seq![digit_char(n)]
    } else {
        decimal(n / 10).push(digit_char(n % 10))
    }
}

/// The name of register number `n`: `r0`, `r1`, ...
pub open spec fn register_name(n: nat) -> Seq<char> {
    seq!['r'] + decimal(n)
}

/// Relies on `String::push`: the character is appended at the end.
#[verifier::external_body]
pub(crate) fn push_char(s: &mut String, c: char)
    ensures
        final(s)@ == old(s)@.push(c),
{
    s.push(c);
}

fn digit(d: u32) -> (c: char)
    requires
        d < 10,
    ensures
        c == digit_char(d as nat),
{
    match d {
        0 => '0',
        1 => '1',
        2 => '2',
        3 => '3',
        4 => '4',
        5 => '5',
        6 => '6',
        7 => '7',
        8 => '8',
        _ => '9',
    }
}

/// Appends the decimal notation of `n` to `s`.
pub fn push_decimal(s: &mut String, n: u32)
    ensures
        final(s)@ == old(s)@ + decimal(n as nat),
    decreases n,
{
    if n >= 10 {
        push_decimal(s, n / 10);
    }
    push_char(s, digit(n % 10));
}

/// Appends a line break.
pub fn push_new_line(aleo_program: &mut String)
    ensures
        final(aleo_program)@ == old(aleo_program)@.push('\n'),
{
    push_char(aleo_program, '\n');
}

/// The name of register number `register_number`.
pub fn to_aleo_register(register_number: u32) -> (r: String)
    ensures
        r@ == register_name(register_number as nat),
{
    let mut r = String::new();
    push_char(&mut r, 'r');
    push_decimal(&mut r, register_number);
    proof {
        assert(r@ =~= register_name(register_number as nat));
    }
    r
}

/// The header line of a function, without its line break: `function <name>:`.
pub fn to_aleo_function_definition(function_name: &str) -> (r: String)
    ensures
        r@ == function_header(function_name@),
{
    let mut r = String::new();
    r.append("function ");
    r.append(function_name);
    push_char(&mut r, ':');
    r
}

/// `function <name>:`
pub open spec fn function_header(name: Seq<char>) -> Seq<char> {
    "function "@ + name + seq![':']
}

} // verus!
