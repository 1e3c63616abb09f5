//! The ASS colour encoding: `&H` followed by the blue, green and red bytes
//! in hexadecimal.
use vstd::prelude::*;
use vstd::string::StrSliceExecFns;
use vstd::string::StringExecFns;

verus! {

/// A colour as its red, green and blue channels.
#[derive(Debug, Clone, Copy, PartialEq, Eq, Structural)]
pub struct RgbColor {
    pub r: u8,
    pub g: u8,
    pub b: u8,
}

pub open spec fn hex_digits() -> Seq<char> {
    seq!['0', '1', '2', '3', '4', '5', '6', '7', '8', '9', 'a', 'b', 'c', 'd', 'e', 'f']
}

/// A byte as exactly two lower-case hexadecimal digits.
pub open spec fn hex_byte(x: u8) -> Seq<char> {
    seq![hex_digits()[(x / 16) as int], hex_digits()[(x % 16) as int]]
}

/// `&H`, then blue, green and red, each as two digits.
pub open spec fn ass_color(c: RgbColor) -> Seq<char> {
    "&H"@ + hex_byte(c.b) + hex_byte(c.g) + hex_byte(c.r)
}

/// Helpers around the document model.
pub struct AssFileOptions {}

fn push_hex_byte(s: &mut String, x: u8)
    ensures
        final(s)@ == old(s)@ + hex_byte(x),
{
    let digits = "0123456789abcdef";
    proof {
        reveal_strlit("0123456789abcdef");
        assert(digits@ =~= hex_digits());
    }
    s.push(digits.get_char((x / 16) as usize));
    s.push(digits.get_char((x % 16) as usize));
    proof {
        assert(final(s)@ =~= old(s)@ + hex_byte(x));
    }
}

impl AssFileOptions {
    /// The colour in the format's encoding, `&H` + blue + green + red, every
    /// channel as two lower-case hexadecimal digits.
    pub fn get_ass_color(color: RgbColor) -> (r: String)
        ensures
            r@ == ass_color(color),
    {
        let mut s = String::from_str("&H");
        push_hex_byte(&mut s, color.b);
        push_hex_byte(&mut s, color.g);
        push_hex_byte(&mut s, color.r);
        s
    }
}

} // verus!
