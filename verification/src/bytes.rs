//! The bytes of a shared-memory buffer seen as pixels.

use vstd::prelude::*;

verus! {

/// Four bytes as one pixel, in one of the two byte orders.
pub open spec fn word(little_endian: bool, a: u8, b: u8, c: u8, d: u8) -> int {
    if little_endian {
        a + b * 0x100 + c * 0x1_0000 + d * 0x100_0000
    } else {
        d + c * 0x100 + b * 0x1_0000 + a * 0x100_0000
    }
}

/// Whether `pixels` are what `bytes` hold, four bytes to a pixel.
pub open spec fn pixels_are(little_endian: bool, bytes: Seq<u8>, pixels: Seq<u32>) -> bool {
    &&& bytes.len() == 4 * pixels.len()
    &&& forall|i: int|
        0 <= i < pixels.len() ==> #[trigger] pixels[i] == word(
            little_endian,
            bytes[4 * i],
            bytes[4 * i + 1],
            bytes[4 * i + 2],
            bytes[4 * i + 3],
        )
}

/// Why bytes cannot be seen as pixels.
#[derive(Debug, Clone, Copy, PartialEq, Eq, Structural)]
pub enum CastError {
    /// They do not start where a pixel can.
    Misaligned,
    /// They are not a whole number of pixels.
    Ragged,
}

#[verifier::external_type_specification]
#[verifier::external_body]
pub struct ExPodCastError(bytemuck::PodCastError);

/// `bytemuck::try_cast_slice_mut`, from `u8` to `u32`: the same memory as pixels,
/// in the machine's byte order, before and after whatever is written through the
/// result. It fails on bytes that are not a whole number of pixels or whose
/// address is not one of a pixel, and then leaves them alone. Which addresses
/// are in order is left unsaid: it depends on where the bytes are.
#[verifier::external_body]
pub(crate) fn cast_slice(bytes: &mut [u8]) -> (cast: Result<&mut [u32], bytemuck::PodCastError>)
    ensures
        match cast {
            Ok(pixels) => exists|little_endian: bool| #[trigger]
                pixels_are(little_endian, old(bytes)@, pixels@) && pixels_are(
                    little_endian,
                    final(bytes)@,
                    final(pixels)@,
                ),
            Err(_) => final(bytes)@ == old(bytes)@,
        },
{
    bytemuck::try_cast_slice_mut(bytes)
}

} // verus!
