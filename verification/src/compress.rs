use vstd::prelude::*;

use std::io::Write;

verus! {

/// Declares std::io::Error, the error type the lz4 encoder reports, so
/// that it can be carried through contracts; it is opaque here.
#[verifier::external_type_specification]
#[verifier::external_body]
pub struct ExIoError(std::io::Error);

/// The number of bytes of the lz4 frame that the encoder emits, at
/// compression level one, for the given input bytes. The frame format is
/// deterministic, so this is a function of the input alone; nothing more
/// is assumed about it.
pub uninterp spec fn lz4_output_len(data: Seq<u8>) -> nat;

/// Relies on lz4::EncoderBuilder and lz4::Encoder (level 1): the encoder
/// writes the whole compressed frame to its sink and `finish` reports any
/// failure, so on success the sink holds exactly the frame for `data`,
/// whose length depends on the fed bytes alone. With an in-memory sink and
/// internal buffers sized by LZ4F_compressBound, the calls cannot fail
/// short of allocation failure (set aside here, as std's own containers
/// abort on it), so the call is promised to succeed. Note that the frame is
/// gathered whole in memory and only its length is kept.
#[verifier::external_body]
pub(crate) fn lz4_frame_len(data: &[u8]) -> (r: Result<u64, std::io::Error>)
    ensures
        r is Ok,
        r matches Ok(n) ==> n as nat == lz4_output_len(data@),
{
    let mut encoder = lz4::EncoderBuilder::new().level(1).build(Vec::new())?;
    encoder.write_all(data)?;
    let (sink, result) = encoder.finish();
    result?;
    Ok(sink.len() as u64)
}

} // verus!
