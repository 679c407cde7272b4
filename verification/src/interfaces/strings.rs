use vstd::prelude::*;

verus! {

/// `String::push` of the standard library: appends one character to the
/// end of the string.
pub assume_specification[ String::push ](s: &mut String, c: char)
    ensures
        final(s)@ == old(s)@.push(c),
;

/// The character that stands `offset` places after the character with
/// the code `base`.
pub fn char_after(base: u8, offset: u8) -> (r: char)
    requires
        base + offset < 128,
    ensures
        r == (offset as int + base as int) as char,
{
    (base + offset) as char
}

/// The code of a character.
pub fn code_of(c: char) -> (r: u32)
    ensures
        r == c as int,
{
    c as u32
}

/// Appends one character.
pub fn push_char(out: &mut String, c: char)
    ensures
        final(out)@ == old(out)@ + seq![c],
{
    out.push(c);
    proof {
        assert(out@ =~= old(out)@ + seq![c]);
    }
}

} // verus!
