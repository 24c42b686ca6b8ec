use vstd::prelude::*;

verus! {

/// ASCII code of the digit `d`.
pub open spec fn digit(d: nat) -> u8
    recommends
        d < 10,
{
    (48 + d) as u8
}

/// Decimal digits of `n`, most significant first, without leading zeros.
pub open spec fn decimal(n: nat) -> Seq<u8>
    decreases n,
{
    if n < 10 {
        seq![digit(n)]
    } else {
        decimal(n / 10).push(digit(n % 10))
    }
}

/// Appends the decimal digits of `n` to `out`.
pub fn push_decimal(out: &mut Vec<u8>, n: u64)
    ensures
        final(out)@ == old(out)@ + decimal(n as nat),
    decreases n,
{
    if n >= 10 {
        push_decimal(out, n / 10);
    }
    out.push(48u8 + (n % 10) as u8);
    proof {
        assert(decimal(n as nat) == if n < 10 { seq![digit(n as nat)] } else { decimal((n / 10) as nat).push(digit((n % 10) as nat)) });
    }
}

/// Header of a plain PPM image: magic number, dimensions and the largest
/// channel value, each on a line of its own.
pub open spec fn header(width: nat, height: nat) -> Seq<u8> {
    seq![80u8, 51u8, 10u8] + decimal(width) + seq![32u8] + decimal(height) + seq![10u8, 50u8, 53u8, 53u8, 10u8]
}

/// The text line of one pixel: its three channels in decimal, separated by
/// spaces.
pub open spec fn pixel_line(c: Color) -> Seq<u8> {
    decimal(c.red as nat) + seq![32u8] + decimal(c.green as nat) + seq![32u8] + decimal(c.blue as nat) + seq![10u8]
}

/// The lines of all pixels, in order.
pub open spec fn pixel_lines(pixels: Seq<Color>) -> Seq<u8>
    decreases pixels.len(),
{
    if pixels.len() == 0 {
        Seq::empty()
    } else {
        pixel_lines(pixels.drop_last()) + pixel_line(pixels.last())
    }
}

/// A pixel ready for output: three channels between 0 and 255.
#[derive(Clone, Copy, Debug, PartialEq, Eq, Structural)]
pub struct Color {
    pub red: u8,
    pub green: u8,
    pub blue: u8,
}

impl Color {
    pub fn new(red: u8, green: u8, blue: u8) -> (r: Color)
        ensures
            r == (Color { red, green, blue }),
    {
        Color { red, green, blue }
    }

    /// Appends the text line of this pixel to `out`.
    pub fn write(&self, out: &mut Vec<u8>)
        ensures
            final(out)@ == old(out)@ + pixel_line(*self),
    {
        let ghost start = out@;
        push_decimal(out, self.red as u64);
        out.push(32u8);
        push_decimal(out, self.green as u64);
        out.push(32u8);
        push_decimal(out, self.blue as u64);
        out.push(10u8);
        assert(out@ =~= start + pixel_line(*self));
    }
}

/// Appends the PPM header for an image of the given size to `out`.
pub fn write_header(out: &mut Vec<u8>, width: usize, height: usize)
    ensures
        final(out)@ == old(out)@ + header(width as nat, height as nat),
{
    let ghost start = out@;
    out.push(80u8);
    out.push(51u8);
    out.push(10u8);
    push_decimal(out, width as u64);
    out.push(32u8);
    push_decimal(out, height as u64);
    out.push(10u8);
    out.push(50u8);
    out.push(53u8);
    out.push(53u8);
    out.push(10u8);
    assert(out@ =~= start + header(width as nat, height as nat));
}

/// Encodes a whole image as plain PPM text: the header, then one line per
/// pixel in row-major order, top row first. Returns `None` when the number of
/// pixels is not `width * height`.
pub fn encode(width: usize, height: usize, pixels: &Vec<Color>) -> (r: Option<Vec<u8>>)
    ensures
        r is Some <==> pixels@.len() == width * height,
        r matches Some(text) ==> text@ == header(width as nat, height as nat) + pixel_lines(pixels@),
{
    if width.checked_mul(height) != Some(pixels.len()) {
        return None;
    }
    let mut out: Vec<u8> = Vec::new();
    write_header(&mut out, width, height);
    let ghost head = out@;
    let mut i: usize = 0;
    while i < pixels.len()
        invariant
            i <= pixels@.len(),
            out@ == head + pixel_lines(pixels@.subrange(0, i as int)),
        decreases pixels@.len() - i,
    {
        pixels[i].write(&mut out);
        proof {
            let next = pixels@.subrange(0, i + 1);
            assert(next.drop_last() =~= pixels@.subrange(0, i as int));
        }
        i += 1;
    }
    assert(pixels@.subrange(0, i as int) =~= pixels@);
    Some(out)
}

} // verus!
