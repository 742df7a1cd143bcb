//! Trusted boundary to the AES-128-CBC cipher and the SHA-1 digest, and the
//! console-family common keys used to unwrap per-partition title keys.

use vstd::prelude::*;
use cbc::cipher::block_padding::NoPadding;
use cbc::cipher::{BlockDecryptMut, KeyIvInit};
use sha1::Digest;

verus! {

/// The AES-128-CBC decryption of `ct` under `key` and `iv`.
pub uninterp spec fn cbc_decrypt_of(key: Seq<u8>, iv: Seq<u8>, ct: Seq<u8>) -> Seq<u8>;

/// The AES-128-CBC encryption of `pt` under `key` and `iv`.
pub uninterp spec fn cbc_encrypt_of(key: Seq<u8>, iv: Seq<u8>, pt: Seq<u8>) -> Seq<u8>;

/// The 20-byte SHA-1 digest of `data`.
pub uninterp spec fn sha1_of(data: Seq<u8>) -> Seq<u8>;

/// Decrypts `ct` with AES-128-CBC under `key` and `iv`, without padding.
///
/// Relies on `cbc::Decryptor<aes::Aes128>` through
/// `cipher::BlockDecryptMut::decrypt_padded_mut` with `NoPadding`: the output
/// is exactly as long as the input, depends on `key`, `iv` and `ct` alone, and
/// inverts what `cbc::Encryptor<aes::Aes128>` produces under the same key
/// and IV.
#[verifier::external_body]
pub fn aes128_cbc_decrypt(key: &Vec<u8>, iv: &Vec<u8>, ct: &Vec<u8>) -> (r: Vec<u8>)
    requires
        key.len() == 16,
        iv.len() == 16,
        ct.len() % 16 == 0,
    ensures
        r@ == cbc_decrypt_of(key@, iv@, ct@),
        r@.len() == ct@.len(),
        forall|pt: Seq<u8>|
            pt.len() == ct@.len() && ct@ == cbc_encrypt_of(key@, iv@, pt) ==> r@ == pt,
{
    let dec = cbc::Decryptor::<aes::Aes128>::new_from_slices(key.as_slice(), iv.as_slice())
        .unwrap();
    let mut buf = ct.clone();
    dec.decrypt_padded_mut::<NoPadding>(buf.as_mut_slice()).unwrap();
    buf
}

/// Computes the SHA-1 digest of `data`.
///
/// Relies on `sha1::Sha1` through the `Digest` trait: the digest has 20 bytes
/// and is a function of the input bytes alone.
#[verifier::external_body]
pub fn sha1_digest(data: &Vec<u8>) -> (r: Vec<u8>)
    ensures
        r@ == sha1_of(data@),
        r@.len() == 20,
{
    let mut h = sha1::Sha1::new();
    h.update(data.as_slice());
    h.finalize().to_vec()
}

/// The byte content of the console-family common key with the given index:
/// 0 is the standard key, 1 the Korean key.
pub open spec fn common_key_spec(index: int) -> Seq<u8> {
    if index == 0 {
        seq![
            0xebu8, 0xe4u8, 0x2au8, 0x22u8, 0x5eu8, 0x85u8, 0x93u8, 0xe4u8,
            0x48u8, 0xd9u8, 0xc5u8, 0x45u8, 0x73u8, 0x81u8, 0xaau8, 0xf7u8,
        ]
    } else {
        seq![
            0x63u8, 0xb8u8, 0x2bu8, 0xb4u8, 0xf4u8, 0x61u8, 0x4eu8, 0x2eu8,
            0x13u8, 0xf2u8, 0xfeu8, 0xfbu8, 0xbau8, 0x4cu8, 0x9bu8, 0x7eu8,
        ]
    }
}

/// Hands out the common key selected by a ticket's key-index byte, or `None`
/// when the index names no known key.
pub fn common_key(index: u8) -> (r: Option<Vec<u8>>)
    ensures
        r is Some <==> index <= 1,
        r matches Some(k) ==> k@ == common_key_spec(index as int) && k.len() == 16,
{
    if index == 0 {
        let k: Vec<u8> = vec![
            0xebu8, 0xe4u8, 0x2au8, 0x22u8, 0x5eu8, 0x85u8, 0x93u8, 0xe4u8,
            0x48u8, 0xd9u8, 0xc5u8, 0x45u8, 0x73u8, 0x81u8, 0xaau8, 0xf7u8,
        ];
        proof {
            assert(k@ =~= common_key_spec(0));
        }
        Some(k)
    } else if index == 1 {
        let k: Vec<u8> = vec![
            0x63u8, 0xb8u8, 0x2bu8, 0xb4u8, 0xf4u8, 0x61u8, 0x4eu8, 0x2eu8,
            0x13u8, 0xf2u8, 0xfeu8, 0xfbu8, 0xbau8, 0x4cu8, 0x9bu8, 0x7eu8,
        ];
        proof {
            assert(k@ =~= common_key_spec(1));
        }
        Some(k)
    } else {
        None
    }
}

} // verus!
