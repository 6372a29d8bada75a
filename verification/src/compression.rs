//! The compression capability: a byte-array transform with a compress and
//! decompress contract.  Codecs are external collaborators; callers supply
//! implementations over their engine of choice, and decompression of a
//! value's own compression must give the value back.

use vstd::prelude::*;
use crate::omnixerror::OmniXError;

verus! {

pub trait CompressionStrategy {
    fn compress(&self, data: &[u8]) -> Result<Vec<u8>, OmniXError>;

    fn decompress(&self, compressed_data: &[u8]) -> Result<Vec<u8>, OmniXError>;
}

} // verus!
