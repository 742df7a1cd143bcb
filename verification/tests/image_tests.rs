//! End-to-end scenarios over whole synthetic images.

use cbc::cipher::block_padding::NoPadding;
use cbc::cipher::{BlockEncryptMut, KeyIvInit};
use nod::crypto::common_key;
use nod::disc::{new_disc_base, Disc, DiscBase};
use nod::fst::PartHeader;
use nod::stream::PartReadStream;
use nod::fst::NodeKind;
use nod::header::{GCN_MAGIC, WII_MAGIC};
use sha1::{Digest, Sha1};

fn img_put_u32_be(image: &mut Vec<u8>, off: usize, v: u32) {
    image[off..off + 4].copy_from_slice(&v.to_be_bytes());
}

fn img_encrypt(key: &[u8], iv: &[u8; 16], data: &[u8]) -> Vec<u8> {
    let mut buf = data.to_vec();
    let n = data.len();
    cbc::Encryptor::<aes::Aes128>::new_from_slices(key, iv)
        .unwrap()
        .encrypt_padded_mut::<NoPadding>(&mut buf, n)
        .unwrap();
    buf
}

fn img_build_sector(key: &[u8], idx: u64, payload: &[u8]) -> Vec<u8> {
    let mut hashes = vec![0u8; 0x400];
    for j in 0..31 {
        let h: [u8; 20] = Sha1::digest(&payload[j * 0x400..(j + 1) * 0x400]).into();
        hashes[j * 20..j * 20 + 20].copy_from_slice(&h);
    }
    let h1: [u8; 20] = Sha1::digest(&hashes[0..0x26c]).into();
    let h1_at = 0x280 + ((idx % 8) as usize) * 20;
    hashes[h1_at..h1_at + 20].copy_from_slice(&h1);
    let h2: [u8; 20] = Sha1::digest(&hashes[0x280..0x320]).into();
    let h2_at = 0x340 + (((idx / 8) % 8) as usize) * 20;
    hashes[h2_at..h2_at + 20].copy_from_slice(&h2);
    let hash_ct = img_encrypt(key, &[0u8; 16], &hashes);
    let mut iv = [0u8; 16];
    iv.copy_from_slice(&hash_ct[0x3d0..0x3e0]);
    let data_ct = img_encrypt(key, &iv, payload);
    let mut sector = hash_ct;
    sector.extend_from_slice(&data_ct);
    sector
}

fn img_fst_record(flag: u8, name_off: u32, offset: u32, length: u32) -> Vec<u8> {
    let mut r = Vec::new();
    r.push(flag);
    r.extend_from_slice(&name_off.to_be_bytes()[1..4]);
    r.extend_from_slice(&offset.to_be_bytes());
    r.extend_from_slice(&length.to_be_bytes());
    r
}

/// Two nodes: the root and one 10-byte file named A.TXT.
fn img_two_node_fst(file_offset: u32) -> Vec<u8> {
    let mut fst = Vec::new();
    fst.extend_from_slice(&img_fst_record(1, 0, 0, 2));
    fst.extend_from_slice(&img_fst_record(0, 1, file_offset, 10));
    fst.extend_from_slice(b"\0A.TXT\0");
    fst
}

#[test]
fn a_minimal_wii_image_serves_its_file_with_validation_enabled() {
    let title_key = [0x5au8; 16];
    let title_id = [9u8, 8, 7, 6, 5, 4, 3, 2];

    // The partition plaintext: its own header, the table at 0x500, the file
    // content at 0x600 (both offsets stored in units of four bytes).
    let mut payload = vec![0u8; 0x7c00];
    let fst = img_two_node_fst(0x600 >> 2);
    img_put_u32_be(&mut payload, 0x424, (0x500u32) >> 2);
    img_put_u32_be(&mut payload, 0x428, fst.len() as u32);
    payload[0x500..0x500 + fst.len()].copy_from_slice(&fst);
    payload[0x600..0x60a].copy_from_slice(b"0123456789");

    let mut image = vec![0u8; 0x58000];
    img_put_u32_be(&mut image, 0x18, WII_MAGIC);
    // One partition table with a single data partition at 0x50000.
    img_put_u32_be(&mut image, 0x40000, 1);
    img_put_u32_be(&mut image, 0x40004, (0x40020u32) >> 2);
    img_put_u32_be(&mut image, 0x40020, (0x50000u32) >> 2);
    img_put_u32_be(&mut image, 0x40024, 0);
    // The ticket: the wrapped title key, the title id, the key index.
    let ck = common_key(0).unwrap();
    let mut iv = [0u8; 16];
    iv[..8].copy_from_slice(&title_id);
    let wrapped = img_encrypt(&ck, &iv, &title_key);
    image[0x50000 + 0x1bf..0x50000 + 0x1cf].copy_from_slice(&wrapped);
    image[0x50000 + 0x1dc..0x50000 + 0x1e4].copy_from_slice(&title_id);
    image[0x50000 + 0x1f1] = 0;
    // The data region: one sector right after the partition header area.
    img_put_u32_be(&mut image, 0x50000 + 0x2b8, (0x8000u32) >> 2);
    img_put_u32_be(&mut image, 0x50000 + 0x2bc, (0x8000u32) >> 2);
    image.extend_from_slice(&img_build_sector(&title_key, 0, &payload));
    assert_eq!(image.len(), 0x60000);

    let disc = new_disc_base(&image).unwrap();
    assert!(matches!(disc, Disc::Wii(_)));
    let part = disc.get_data_partition(&image, true).unwrap();
    assert_eq!(part.ideal_buffer_size(), 0x7c00);
    let header = part.read_header(&image).unwrap();
    let node = header.find_node("/A.TXT").expect("the file resolves");
    assert!(matches!(node.kind, NodeKind::File));
    assert_eq!(node.length, 10);
    let mut file = part.begin_file_stream(node);
    let bytes = file.read(&part, &image, 64).unwrap();
    assert_eq!(bytes, b"0123456789".to_vec());
    let rest = file.read(&part, &image, 64).unwrap();
    assert!(rest.is_empty());
}

#[test]
fn a_corrupted_wii_image_fails_validation_but_reads_without_it() {
    let title_key = [0x5au8; 16];
    let title_id = [1u8; 8];
    let mut payload = vec![0u8; 0x7c00];
    let fst = img_two_node_fst(0x600 >> 2);
    img_put_u32_be(&mut payload, 0x424, (0x500u32) >> 2);
    img_put_u32_be(&mut payload, 0x428, fst.len() as u32);
    payload[0x500..0x500 + fst.len()].copy_from_slice(&fst);

    let mut image = vec![0u8; 0x58000];
    img_put_u32_be(&mut image, 0x18, WII_MAGIC);
    img_put_u32_be(&mut image, 0x40000, 1);
    img_put_u32_be(&mut image, 0x40004, (0x40020u32) >> 2);
    img_put_u32_be(&mut image, 0x40020, (0x50000u32) >> 2);
    img_put_u32_be(&mut image, 0x40024, 0);
    let ck = common_key(0).unwrap();
    let mut iv = [0u8; 16];
    iv[..8].copy_from_slice(&title_id);
    let wrapped = img_encrypt(&ck, &iv, &title_key);
    image[0x50000 + 0x1bf..0x50000 + 0x1cf].copy_from_slice(&wrapped);
    image[0x50000 + 0x1dc..0x50000 + 0x1e4].copy_from_slice(&title_id);
    img_put_u32_be(&mut image, 0x50000 + 0x2b8, (0x8000u32) >> 2);
    img_put_u32_be(&mut image, 0x50000 + 0x2bc, (0x8000u32) >> 2);
    image.extend_from_slice(&img_build_sector(&title_key, 0, &payload));

    // Flip one bit of the sector's ciphertext.
    image[0x58000 + 0x400 + 0x200] ^= 1;

    let disc = new_disc_base(&image).unwrap();
    let part = disc.get_data_partition(&image, true).unwrap();
    let err = part.read_header(&image).unwrap_err();
    assert_eq!(err, nod::Error::Verification(0, nod::HashLevel::H0));

    let lax = disc.get_data_partition(&image, false).unwrap();
    assert!(lax.read_header(&image).is_ok());
}

#[test]
fn a_minimal_gamecube_image_serves_its_file() {
    let mut image = vec![0u8; 0x1000];
    img_put_u32_be(&mut image, 0x1c, GCN_MAGIC);
    // GameCube offsets are stored unshifted.
    let fst = img_two_node_fst(0x600);
    img_put_u32_be(&mut image, 0x424, 0x500);
    img_put_u32_be(&mut image, 0x428, fst.len() as u32);
    image[0x500..0x500 + fst.len()].copy_from_slice(&fst);
    image[0x600..0x60a].copy_from_slice(b"ABCDEFGHIJ");

    let disc = new_disc_base(&image).unwrap();
    assert!(matches!(disc, Disc::Gcn(_)));
    let part = disc.get_data_partition(&image, false).unwrap();
    assert_eq!(part.ideal_buffer_size(), 0x8000);
    let header = part.read_header(&image).unwrap();
    let root = header.root_node();
    assert!(matches!(root.kind, NodeKind::Directory));
    assert_eq!(root.length, 2);
    let node = header.find_node("/A.TXT").unwrap();
    let mut file = part.begin_file_stream(node);
    let bytes = file.read(&part, &image, 64).unwrap();
    assert_eq!(bytes, b"ABCDEFGHIJ".to_vec());
}

#[test]
fn the_game_title_field_stops_at_its_first_zero_byte() {
    let mut image = vec![0u8; 0x1000];
    img_put_u32_be(&mut image, 0x1c, GCN_MAGIC);
    image[0x20..0x25].copy_from_slice(b"HELLO");
    image[0x26] = b'!';
    let disc = new_disc_base(&image).unwrap();
    assert_eq!(disc.get_header().game_title, b"HELLO".to_vec());
}
