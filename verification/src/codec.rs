//! The codecs that RPC payloads can be encoded with.
use vstd::prelude::*;

verus! {

/// Supported codec types.
#[derive(Debug, Clone, Copy, PartialEq, Eq, Structural)]
pub enum CodecType {
    Bincode,
}

/// Codec for serializing/deserializing RPC payloads.
#[derive(Debug, Clone)]
pub struct Codec {
    codec_type: CodecType,
}

impl Codec {
    /// The codec type of this codec.
    pub closed spec fn kind(&self) -> CodecType {
        self.codec_type
    }

    pub fn bincode() -> (c: Codec)
        ensures
            c.kind() == CodecType::Bincode,
    {
        Codec { codec_type: CodecType::Bincode }
    }

    pub fn codec_type(&self) -> (r: CodecType)
        ensures
            r == self.kind(),
    {
        self.codec_type
    }
}

impl Default for Codec {
    fn default() -> (c: Codec)
        ensures
            c.kind() == CodecType::Bincode,
    {
        Codec::bincode()
    }
}

} // verus!
