//! Re-encoding of uploaded PNG pictures.

use vstd::prelude::*;

verus! {

/// Relies on oxipng::optimize_from_memory: re-encodes a PNG from memory,
/// stripping metadata, and answers None for input it cannot decode.  The
/// encoder works under a timeout, so the bytes that come back may differ from
/// run to run; nothing more is assumed of them.
#[verifier::external_body]
pub fn optimize_png(input_data: &[u8]) -> (r: Option<Vec<u8>>)
{
    let mut options = oxipng::Options::from_preset(3);
    options.fix_errors = true;
    options.force = true;
    options.interlace = Some(false);
    options.strip = oxipng::StripChunks::All;
    options.timeout = Some(std::time::Duration::from_millis(100));
    match oxipng::optimize_from_memory(input_data, &options) {
        Ok(picture) => Some(picture),
        Err(_) => None,
    }
}

} // verus!
