//! Work layout of the BC7 mode-6 compute encoder: 4x4 RGBA blocks in,
//! 16-byte BC7 blocks out, one workgroup per block.
use vstd::prelude::*;

verus! {

pub const PIXELS_PER_BLOCK: usize = 16;

pub const BYTES_PER_INPUT_BLOCK: usize = 64;

pub const BYTES_PER_OUTPUT_BLOCK: usize = 16;

/// The GPU work for one encode.
pub struct Mode6Dispatch {
    /// Number of 4x4 blocks to encode.
    pub num_blocks: usize,
    /// Workgroups dispatched, and the block count handed to the shader
    /// (the block count as a `u32`).
    pub workgroups: u32,
    /// Size of the output and read-back buffers in bytes.
    pub out_bytes: u64,
}

/// The work for encoding `input_len` bytes of block-major RGBA (64 bytes per
/// block); none when there are no blocks (the encoding is then empty).
pub fn mode6_dispatch(input_len: usize) -> (d: Option<Mode6Dispatch>)
    requires
        input_len % BYTES_PER_INPUT_BLOCK == 0,
    ensures
        input_len < BYTES_PER_INPUT_BLOCK <==> d is None,
        d matches Some(w) ==> w.num_blocks == input_len / BYTES_PER_INPUT_BLOCK && w.workgroups
            == (w.num_blocks as u32) && w.out_bytes == w.num_blocks * BYTES_PER_OUTPUT_BLOCK,
{
    let num_blocks = input_len / BYTES_PER_INPUT_BLOCK;
    if num_blocks == 0 {
        return None;
    }
    let out_bytes = (num_blocks * BYTES_PER_OUTPUT_BLOCK) as u64;
    Some(Mode6Dispatch { num_blocks, workgroups: num_blocks as u32, out_bytes })
}

} // verus!
