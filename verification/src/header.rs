//! The fixed 0x440-byte disc header shared by the GameCube and Wii formats.

use vstd::prelude::*;
use crate::Error;
use crate::util::{be32, null_terminated, read_u32_be, copy_until_zero};

verus! {

/// The magic value carried by every Wii disc header.
pub const WII_MAGIC: u32 = 0x5D1C9EA3;

/// The magic value carried by every GameCube disc header.
pub const GCN_MAGIC: u32 = 0xC2339F3D;

/// The size in bytes of the fixed disc header.
pub const HEADER_SIZE: usize = 0x440;

/// Shared GameCube & Wii disc header.
#[derive(Clone, Debug)]
pub struct Header {
    /// Game ID (six bytes).
    pub game_id: [u8; 6],
    /// Used in multi-disc games.
    pub disc_num: u8,
    /// Disc version.
    pub disc_version: u8,
    /// Audio streaming enabled (bool).
    pub audio_streaming: u8,
    /// Audio streaming buffer size.
    pub audio_stream_buf_size: u8,
    /// If this is a Wii disc, this will be 0x5D1C9EA3.
    pub wii_magic: u32,
    /// If this is a GameCube disc, this will be 0xC2339F3D.
    pub gcn_magic: u32,
    /// Game title: the bytes of the fixed 64-byte field before its first
    /// zero byte.
    pub game_title: Vec<u8>,
    /// Disable hash verification.
    pub disable_hash_verification: u8,
    /// Disable disc encryption and H3 hash table loading and verification.
    pub disable_disc_enc: u8,
    /// Debug monitor offset.
    pub debug_mon_off: u32,
    /// Debug monitor load address.
    pub debug_load_addr: u32,
    /// Offset to main DOL (Wii: >> 2).
    pub dol_off: u32,
    /// Offset to file system table (Wii: >> 2).
    pub fst_off: u32,
    /// File system size.
    pub fst_sz: u32,
    /// File system max size.
    pub fst_max_sz: u32,
    /// File system table load address.
    pub fst_memory_address: u32,
    /// User position.
    pub user_position: u32,
    /// User size.
    pub user_sz: u32,
}

/// Field-by-field agreement of `h` with the fixed big-endian layout of the
/// first 0x440 bytes of `data`.
pub open spec fn header_matches(h: Header, data: Seq<u8>) -> bool {
    &&& h.game_id@ == data.subrange(0, 6)
    &&& h.disc_num == data[6]
    &&& h.disc_version == data[7]
    &&& h.audio_streaming == data[8]
    &&& h.audio_stream_buf_size == data[9]
    &&& h.wii_magic == be32(data, 0x18)
    &&& h.gcn_magic == be32(data, 0x1c)
    &&& h.game_title@ == null_terminated(data.subrange(0x20, 0x60))
    &&& h.disable_hash_verification == data[0x60]
    &&& h.disable_disc_enc == data[0x61]
    &&& h.debug_mon_off == be32(data, 0x400)
    &&& h.debug_load_addr == be32(data, 0x404)
    &&& h.dol_off == be32(data, 0x420)
    &&& h.fst_off == be32(data, 0x424)
    &&& h.fst_sz == be32(data, 0x428)
    &&& h.fst_max_sz == be32(data, 0x42c)
    &&& h.fst_memory_address == be32(data, 0x430)
    &&& h.user_position == be32(data, 0x434)
    &&& h.user_sz == be32(data, 0x438)
}

impl Header {
    /// Decodes the fixed disc header from the first 0x440 bytes of `data`.
    /// Big-endian integers throughout; the title field ends at its first zero
    /// byte. No magic value is checked here: that is the dispatcher's task.
    /// Fails exactly when `data` is shorter than the fixed layout.
    pub fn parse(data: &Vec<u8>) -> (r: Result<Header, Error>)
        ensures
            r is Ok <==> data.len() >= HEADER_SIZE,
            r matches Ok(h) ==> header_matches(h, data@),
            r matches Err(e) ==> e == Error::Io,
    {
        if data.len() < HEADER_SIZE {
            return Err(Error::Io);
        }
        let game_id: [u8; 6] = [data[0], data[1], data[2], data[3], data[4], data[5]];
        let h = Header {
            game_id,
            disc_num: data[6],
            disc_version: data[7],
            audio_streaming: data[8],
            audio_stream_buf_size: data[9],
            wii_magic: read_u32_be(data, 0x18),
            gcn_magic: read_u32_be(data, 0x1c),
            game_title: copy_until_zero(data, 0x20, 0x60),
            disable_hash_verification: data[0x60],
            disable_disc_enc: data[0x61],
            debug_mon_off: read_u32_be(data, 0x400),
            debug_load_addr: read_u32_be(data, 0x404),
            dol_off: read_u32_be(data, 0x420),
            fst_off: read_u32_be(data, 0x424),
            fst_sz: read_u32_be(data, 0x428),
            fst_max_sz: read_u32_be(data, 0x42c),
            fst_memory_address: read_u32_be(data, 0x430),
            user_position: read_u32_be(data, 0x434),
            user_sz: read_u32_be(data, 0x438),
        };
        proof {
            assert(h.game_id@ =~= data@.subrange(0, 6));
        }
        Ok(h)
    }

    /// True exactly when the header carries the Wii magic value.
    pub fn is_wii(&self) -> (r: bool)
        ensures
            r == (self.wii_magic == WII_MAGIC),
    {
        self.wii_magic == WII_MAGIC
    }

    /// True exactly when the header carries the GameCube magic value.
    pub fn is_gamecube(&self) -> (r: bool)
        ensures
            r == (self.gcn_magic == GCN_MAGIC),
    {
        self.gcn_magic == GCN_MAGIC
    }
}

} // verus!
