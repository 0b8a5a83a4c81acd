use vstd::prelude::*;

use crate::pixels::DecodeError;

verus! {

/// The size, as the codec reports it (width first), that the codec reads
/// from an encoded image's header, or `None` where it cannot.
pub uninterp spec fn probed_dimensions(encoded: Seq<u8>) -> Option<(u32, u32)>;

/// Relies on `image::ImageReader::with_guessed_format`, which picks the
/// format from the leading bytes, and `ImageReader::into_dimensions`, which
/// reads the size from the format's header without decoding pixels. The
/// outcome depends on the bytes alone.
#[verifier::external_body]
fn read_dimensions(encoded: &[u8]) -> (r: Result<(u32, u32), image::ImageError>)
    ensures
        match probed_dimensions(encoded@) {
            Some(dims) => r is Ok && r->Ok_0 == dims,
            None => r is Err,
        },
{
    match image::ImageReader::new(std::io::Cursor::new(encoded)).with_guessed_format() {
        Ok(reader) => reader.into_dimensions(),
        Err(e) => Err(image::ImageError::IoError(e)),
    }
}

/// The size of an encoded image, read from its header alone.
pub fn probe_dimensions(encoded: &[u8]) -> (r: Result<(u32, u32), DecodeError>)
    ensures
        match probed_dimensions(encoded@) {
            Some(dims) => r == Ok::<(u32, u32), DecodeError>(dims),
            None => r is Err && r->Err_0 is Codec,
        },
{
    match read_dimensions(encoded) {
        Ok(dims) => Ok(dims),
        Err(e) => Err(DecodeError::Codec(e)),
    }
}

} // verus!
