use vstd::prelude::*;

verus! {

/// A pixel whose channels are already encoded as 8-bit values.
#[derive(Clone, Copy, Debug, PartialEq, Eq, Structural)]
pub struct Pixel {
    pub red: u8,
    pub green: u8,
    pub blue: u8,
}

/// The three bytes a pixel occupies in a bitmap: blue, green, then red.
pub open spec fn pixel_bytes(p: Pixel) -> Seq<u8> {
    seq![p.blue, p.green, p.red]
}

/// A channel value that has been scaled by 256 and rounded down, reduced to
/// eight bits the way an unsigned cast does: 256 becomes 0, -1 becomes 255.
pub open spec fn wrapped_channel(scaled: int) -> int {
    scaled % 256
}

impl Pixel {
    pub fn new(red: u8, green: u8, blue: u8) -> (r: Pixel)
        ensures
            r.red == red,
            r.green == green,
            r.blue == blue,
    {
        Pixel { red, green, blue }
    }

    /// Builds a pixel from channel values already scaled by 256 and rounded
    /// down; each is wrapped to eight bits.
    pub fn from_scaled(red: i64, green: i64, blue: i64) -> (r: Pixel)
        ensures
            r.red as int == wrapped_channel(red as int),
            r.green as int == wrapped_channel(green as int),
            r.blue as int == wrapped_channel(blue as int),
    {
        Pixel { red: channel_byte(red), green: channel_byte(green), blue: channel_byte(blue) }
    }

    /// The pixel's bytes in bitmap order.
    pub fn encode(&self) -> (r: Vec<u8>)
        ensures
            r@ == pixel_bytes(*self),
    {
        let mut out: Vec<u8> = Vec::new();
        write_pixel(&mut out, self);
        out
    }
}

/// Reduces a channel value, scaled by 256 and rounded down, to its byte.
/// No clamping takes place: a full channel (256) wraps to 0.
pub fn channel_byte(scaled: i64) -> (r: u8)
    ensures
        r as int == wrapped_channel(scaled as int),
{
    if scaled >= 0 {
        (scaled % 256) as u8
    } else {
        let below: i64 = -(scaled + 1);
        let m: i64 = below % 256;
        proof {
            assert(scaled as int % 256 == 255 - m) by (nonlinear_arith)
                requires
                    below == -(scaled + 1),
                    m == below % 256,
                    below >= 0,
            ;
        }
        (255 - m) as u8
    }
}

/// Appends the pixel's blue, green and red bytes to `out`.
pub fn write_pixel(out: &mut Vec<u8>, p: &Pixel)
    ensures
        final(out)@ == old(out)@ + pixel_bytes(*p),
{
    out.push(p.blue);
    out.push(p.green);
    out.push(p.red);
    assert(out@ =~= old(out)@ + pixel_bytes(*p));
}

} // verus!
