use vstd::prelude::*;
use crate::consts::{WIDTH, HEIGHT};
use crate::numfmt::{push_dec_bytes, spec_dec_bytes};
use crate::render::Screen;

verus! {

/// The header line of the binary full-color raster format: the magic "P6",
/// a newline, then width, height and the maximum channel value 255 in
/// decimal, space-separated, closed by a newline.
pub open spec fn spec_ppm_header() -> Seq<u8> {
    seq![80u8, 54u8, 10u8] + spec_dec_bytes(WIDTH as nat) + seq![32u8] + spec_dec_bytes(
        HEIGHT as nat,
    ) + seq![32u8, 50u8, 53u8, 53u8, 10u8]
}

/// The complete binary raster for a finished frame: the header, then one
/// R,G,B byte triple per pixel in row-major order starting from the top
/// visual row — exactly the screen's own byte order.
pub fn image_bytes(image: &Screen) -> (out: Vec<u8>)
    ensures
        out@ == spec_ppm_header() + image@,
{
    let mut out: Vec<u8> = Vec::new();
    out.push(80);  // 'P'
    out.push(54);  // '6'
    out.push(10);  // newline
    push_dec_bytes(&mut out, WIDTH);
    out.push(32);  // space
    push_dec_bytes(&mut out, HEIGHT);
    out.push(32);  // space
    out.push(50);  // '2'
    out.push(53);  // '5'
    out.push(53);  // '5'
    out.push(10);  // newline
    proof {
        assert(out@ =~= spec_ppm_header());
    }
    let ghost head = out@;
    out.extend_from_slice(image.as_bytes());
    proof {
        assert forall|i: int| 0 <= i < image@.len() implies out@[head.len() + i]
            == image@[i] by {
            assert(cloned(image@[i], out@[head.len() + i]));
        }
        assert(out@ =~= spec_ppm_header() + image@);
    }
    out
}

} // verus!
