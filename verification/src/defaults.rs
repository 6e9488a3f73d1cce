//! The default registry of the codecs this library decodes.

use vstd::prelude::*;
use crate::codecs::{CodecRegistry, Decoder, Registered, CodecType, register_all_spec};
use crate::flac::decoder::FlacDecoder;
use crate::pcm::PcmDecoder;

verus! {

/// The codecs of the default registry: those of the FLAC decoder, then those of the PCM
/// decoder, all at tier 0.
pub open spec fn default_codecs() -> Map<CodecType, Registered> {
    register_all_spec(
        register_all_spec(Map::empty(), FlacDecoder::supported_codecs_spec(), 0),
        PcmDecoder::supported_codecs_spec(),
        0,
    )
}

/// Gets the default `CodecRegistry`, with every decoder of this library registered: FLAC, then
/// PCM, at tier 0.
pub fn get_codecs() -> (r: CodecRegistry)
    ensures
        r.wf(),
        r@ == default_codecs(),
{
    let mut registry = CodecRegistry::new();
    registry.register_all::<FlacDecoder>(0);
    registry.register_all::<PcmDecoder>(0);
    registry
}

} // verus!
