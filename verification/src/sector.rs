//! The Wii sector codec: each physical 0x8000-byte sector holds a 0x400-byte
//! hash block followed by 0x7c00 bytes of AES-128-CBC ciphertext whose IV is
//! taken from the sector's own stored hash block. Decoding decrypts the data
//! region and, on request, checks the H0/H1/H2 levels of the hash tree.

use vstd::prelude::*;
use crate::{Error, HashLevel};
use crate::crypto::{aes128_cbc_decrypt, cbc_decrypt_of, cbc_encrypt_of, sha1_digest, sha1_of};
use crate::util::{bytes_eq, copy_range};

verus! {

/// The physical size of one Wii sector.
pub const SECTOR_SIZE: usize = 0x8000;

/// The decrypted payload carried by one Wii sector.
pub const SECTOR_DATA_SIZE: usize = 0x7c00;

/// The size of the hash block at the head of each sector.
pub const SECTOR_HASHES_SIZE: usize = 0x400;

/// The byte offset of sector `idx` of the data region starting at `base`.
pub open spec fn sector_base(base: int, idx: int) -> int {
    base + idx * 0x8000
}

/// An all-zero 16-byte IV.
pub open spec fn zero_iv() -> Seq<u8> {
    Seq::new(16, |i: int| 0u8)
}

/// The stored (still encrypted) hash block of a sector.
pub open spec fn sector_hash_cipher(image: Seq<u8>, base: int, idx: int) -> Seq<u8> {
    image.subrange(sector_base(base, idx), sector_base(base, idx) + 0x400)
}

/// The IV of a sector's data region: bytes [0x3d0, 0x3e0) of the sector's own
/// stored hash block.
pub open spec fn sector_iv(image: Seq<u8>, base: int, idx: int) -> Seq<u8> {
    image.subrange(sector_base(base, idx) + 0x3d0, sector_base(base, idx) + 0x3e0)
}

/// The stored ciphertext of a sector's 0x7c00-byte data region.
pub open spec fn sector_data_cipher(image: Seq<u8>, base: int, idx: int) -> Seq<u8> {
    image.subrange(sector_base(base, idx) + 0x400, sector_base(base, idx) + 0x8000)
}

/// The decrypted 0x7c00-byte payload of a sector.
pub open spec fn sector_plain(image: Seq<u8>, base: int, key: Seq<u8>, idx: int) -> Seq<u8> {
    cbc_decrypt_of(key, sector_iv(image, base, idx), sector_data_cipher(image, base, idx))
}

/// The decrypted hash block of a sector: H0 at [0, 0x26c), H1 at
/// [0x280, 0x320), H2 at [0x340, 0x3e0). The hash block is stored encrypted
/// under a zero IV.
pub open spec fn sector_hashes(image: Seq<u8>, base: int, key: Seq<u8>, idx: int) -> Seq<u8> {
    cbc_decrypt_of(key, zero_iv(), sector_hash_cipher(image, base, idx))
}

/// H0 check `j` of a sector: the digest of the `j`-th 0x400-byte plaintext
/// chunk equals the `j`-th stored H0 entry.
pub open spec fn h0_ok(image: Seq<u8>, base: int, key: Seq<u8>, idx: int, j: int) -> bool {
    sha1_of(sector_plain(image, base, key, idx).subrange(j * 0x400, j * 0x400 + 0x400))
        == sector_hashes(image, base, key, idx).subrange(j * 20, j * 20 + 20)
}

/// H1 check of a sector: the digest of its H0 table equals the H1 entry for
/// its position in its subgroup of eight sectors.
pub open spec fn h1_ok(image: Seq<u8>, base: int, key: Seq<u8>, idx: int) -> bool {
    sha1_of(sector_hashes(image, base, key, idx).subrange(0, 0x26c)) == sector_hashes(
        image,
        base,
        key,
        idx,
    ).subrange(0x280 + (idx % 8) * 20, 0x280 + (idx % 8) * 20 + 20)
}

/// H2 check of a sector: the digest of its H1 table equals the H2 entry for
/// its subgroup's position in its group of eight subgroups.
pub open spec fn h2_ok(image: Seq<u8>, base: int, key: Seq<u8>, idx: int) -> bool {
    sha1_of(sector_hashes(image, base, key, idx).subrange(0x280, 0x320)) == sector_hashes(
        image,
        base,
        key,
        idx,
    ).subrange(0x340 + ((idx / 8) % 8) * 20, 0x340 + ((idx / 8) % 8) * 20 + 20)
}

/// All H0 checks of a sector pass.
pub open spec fn h0_all_ok(image: Seq<u8>, base: int, key: Seq<u8>, idx: int) -> bool {
    forall|j: int| 0 <= j < 31 ==> h0_ok(image, base, key, idx, j)
}

/// Every per-sector hash check passes.
pub open spec fn sector_valid(image: Seq<u8>, base: int, key: Seq<u8>, idx: int) -> bool {
    &&& h0_all_ok(image, base, key, idx)
    &&& h1_ok(image, base, key, idx)
    &&& h2_ok(image, base, key, idx)
}

/// `lvl` is the lowest level of the hash tree at which sector `idx` fails:
/// the levels are checked from H0 up and the first mismatch is reported.
pub open spec fn failing_level(
    image: Seq<u8>,
    base: int,
    key: Seq<u8>,
    idx: int,
    lvl: HashLevel,
) -> bool {
    match lvl {
        HashLevel::H0 => !h0_all_ok(image, base, key, idx),
        HashLevel::H1 => h0_all_ok(image, base, key, idx) && !h1_ok(image, base, key, idx),
        HashLevel::H2 => h0_all_ok(image, base, key, idx) && h1_ok(image, base, key, idx)
            && !h2_ok(image, base, key, idx),
    }
}

/// Decrypts sector `idx` of the data region at `base` and, when `validate`
/// is set, checks its hash tree. On success the result is exactly the
/// sector's decrypted payload; in particular, a payload that was produced by
/// AES-128-CBC encryption under the same key and the sector's stored IV is
/// recovered unchanged. Fails exactly when validation is requested and a hash
/// check fails, identifying the sector and the lowest failing level.
pub fn decode_sector(image: &Vec<u8>, base: u64, idx: u64, key: &Vec<u8>, validate: bool) -> (r:
    Result<Vec<u8>, Error>)
    requires
        key.len() == 16,
        base + idx * 0x8000 + 0x8000 <= image.len(),
    ensures
        r is Ok <==> (validate ==> sector_valid(image@, base as int, key@, idx as int)),
        r matches Ok(pt) ==> {
            &&& pt@ == sector_plain(image@, base as int, key@, idx as int)
            &&& pt.len() == SECTOR_DATA_SIZE
            &&& forall|p: Seq<u8>|
                p.len() == 0x7c00 && sector_data_cipher(image@, base as int, idx as int)
                    == cbc_encrypt_of(key@, sector_iv(image@, base as int, idx as int), p)
                    ==> pt@ == p
        },
        r matches Err(e) ==> validate && (e matches Error::Verification(s, lvl) && s == idx
            && failing_level(image@, base as int, key@, idx as int, lvl)),
{
    let off = (base + idx * 0x8000) as usize;
    assert(off == sector_base(base as int, idx as int));
    let iv = copy_range(image, off + 0x3d0, 16);
    let data_ct = copy_range(image, off + 0x400, 0x7c00);
    assert(iv@ == sector_iv(image@, base as int, idx as int));
    assert(data_ct@ == sector_data_cipher(image@, base as int, idx as int));
    let pt = aes128_cbc_decrypt(key, &iv, &data_ct);
    if validate {
        let hash_ct = copy_range(image, off, 0x400);
        assert(hash_ct@ == sector_hash_cipher(image@, base as int, idx as int));
        let zero: Vec<u8> = vec![0u8; 16];
        proof {
            assert(zero@ =~= zero_iv());
        }
        let hashes = aes128_cbc_decrypt(key, &zero, &hash_ct);
        assert(hashes@ == sector_hashes(image@, base as int, key@, idx as int));
        let mut j: usize = 0;
        while j < 31
            invariant
                validate,
                j <= 31,
                pt@ == sector_plain(image@, base as int, key@, idx as int),
                pt.len() == 0x7c00,
                hashes@ == sector_hashes(image@, base as int, key@, idx as int),
                hashes.len() == 0x400,
                forall|j2: int| 0 <= j2 < j ==> h0_ok(image@, base as int, key@, idx as int, j2),
            decreases 31 - j,
        {
            let chunk = copy_range(&pt, j * 0x400, 0x400);
            let dig = sha1_digest(&chunk);
            let expected = copy_range(&hashes, j * 20, 20);
            if !bytes_eq(&dig, &expected) {
                assert(!h0_ok(image@, base as int, key@, idx as int, j as int));
                return Err(Error::Verification(idx, HashLevel::H0));
            }
            assert(h0_ok(image@, base as int, key@, idx as int, j as int));
            j = j + 1;
        }
        let h0_area = copy_range(&hashes, 0, 0x26c);
        let d1 = sha1_digest(&h0_area);
        let e1 = copy_range(&hashes, 0x280 + ((idx % 8) as usize) * 20, 20);
        if !bytes_eq(&d1, &e1) {
            return Err(Error::Verification(idx, HashLevel::H1));
        }
        let h1_area = copy_range(&hashes, 0x280, 0xa0);
        let d2 = sha1_digest(&h1_area);
        let e2 = copy_range(&hashes, 0x340 + (((idx / 8) % 8) as usize) * 20, 20);
        if !bytes_eq(&d2, &e2) {
            return Err(Error::Verification(idx, HashLevel::H2));
        }
    }
    Ok(pt)
}

} // verus!
