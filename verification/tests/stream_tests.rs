//! Partition and windowed streams: cursor behaviour, window bounds, reads
//! across sector boundaries, and read idempotence.

use cbc::cipher::block_padding::NoPadding;
use cbc::cipher::{BlockEncryptMut, KeyIvInit};
use nod::fst::{Node, NodeKind};
use nod::stream::{PartKind, PartReadStream, PartStream};
use sha1::{Digest, Sha1};

fn st_encrypt(key: &[u8; 16], iv: &[u8; 16], data: &[u8]) -> Vec<u8> {
    let mut buf = data.to_vec();
    let n = data.len();
    cbc::Encryptor::<aes::Aes128>::new(key.into(), iv.into())
        .encrypt_padded_mut::<NoPadding>(&mut buf, n)
        .unwrap();
    buf
}

fn st_build_sector(key: &[u8; 16], idx: u64, payload: &[u8]) -> Vec<u8> {
    let mut hashes = vec![0u8; 0x400];
    for j in 0..31 {
        let h: [u8; 20] = Sha1::digest(&payload[j * 0x400..(j + 1) * 0x400]).into();
        hashes[j * 20..j * 20 + 20].copy_from_slice(&h);
    }
    let h1: [u8; 20] = Sha1::digest(&hashes[0..0x26c]).into();
    let h1_at = 0x280 + ((idx % 8) as usize) * 20;
    hashes[h1_at..h1_at + 20].copy_from_slice(&h1);
    let h2: [u8; 20] = Sha1::digest(&hashes[0x280..0x320]).into();
    let h2_at = 0x340 + (((idx / 8) % 8) as usize) * 20;
    hashes[h2_at..h2_at + 20].copy_from_slice(&h2);
    let hash_ct = st_encrypt(key, &[0u8; 16], &hashes);
    let mut iv = [0u8; 16];
    iv.copy_from_slice(&hash_ct[0x3d0..0x3e0]);
    let data_ct = st_encrypt(key, &iv, payload);
    let mut sector = hash_ct;
    sector.extend_from_slice(&data_ct);
    sector
}

fn st_gcn_stream(size: u64) -> PartStream {
    PartStream { kind: PartKind::Gcn, base: 0, size, pos: 0 }
}

fn st_wii_stream(key: &[u8; 16], size: u64, validate: bool) -> PartStream {
    PartStream {
        kind: PartKind::Wii { title_key: key.to_vec(), validate },
        base: 0,
        size,
        pos: 0,
    }
}

#[test]
fn a_wii_read_across_a_sector_boundary_stitches_both_payloads() {
    let key = [0x3cu8; 16];
    let payload0: Vec<u8> = (0..0x7c00usize).map(|i| i as u8).collect();
    let payload1: Vec<u8> = (0..0x7c00usize).map(|i| (i as u8) ^ 0xff).collect();
    let mut image = st_build_sector(&key, 0, &payload0);
    image.extend_from_slice(&st_build_sector(&key, 1, &payload1));

    let part = st_wii_stream(&key, 0x10000, true);
    let got = part.read_at(&image, 0x7bf8, 16).unwrap();
    let mut want = payload0[0x7bf8..].to_vec();
    want.extend_from_slice(&payload1[..8]);
    assert_eq!(got, want);
    assert_eq!(part.ideal_buffer_size(), 0x7c00);
}

#[test]
fn reads_clamp_at_the_logical_end_and_never_fail_past_it() {
    let key = [0x3cu8; 16];
    let payload: Vec<u8> = (0..0x7c00usize).map(|i| (i / 3) as u8).collect();
    let image = st_build_sector(&key, 0, &payload);
    let part = st_wii_stream(&key, 0x8000, false);
    // One sector holds 0x7c00 logical bytes.
    let got = part.read_at(&image, 0x7bfe, 100).unwrap();
    assert_eq!(got, payload[0x7bfe..].to_vec());
    let empty = part.read_at(&image, 0x7c00, 100).unwrap();
    assert!(empty.is_empty());
}

#[test]
fn the_cursor_advances_by_what_was_read() {
    let image: Vec<u8> = (0..100u8).collect();
    let mut part = st_gcn_stream(100);
    let a = part.read(&image, 10).unwrap();
    let b = part.read(&image, 10).unwrap();
    assert_eq!(a, (0..10u8).collect::<Vec<u8>>());
    assert_eq!(b, (10..20u8).collect::<Vec<u8>>());
    part.seek(95);
    let c = part.read(&image, 10).unwrap();
    assert_eq!(c, (95..100u8).collect::<Vec<u8>>());
}

#[test]
fn reading_a_region_twice_through_independent_windows_is_identical() {
    let key = [0x51u8; 16];
    let payload: Vec<u8> = (0..0x7c00usize).map(|i| (i * 7) as u8).collect();
    let image = st_build_sector(&key, 0, &payload);
    let part = st_wii_stream(&key, 0x8000, true);

    let node = Node { kind: NodeKind::File, name: b"F".to_vec(), offset: 0x40, length: 0x80 };
    let mut w1 = part.begin_file_stream(&node);
    let mut w2 = part.begin_file_stream(&node);
    let r1 = w1.read(&part, &image, 0x80).unwrap();
    let r2 = w2.read(&part, &image, 0x80).unwrap();
    assert_eq!(r1, r2);
    // The file offset is stored in units of four bytes on Wii.
    assert_eq!(r1, payload[0x100..0x180].to_vec());
    // Re-reading through the same window after seeking back agrees too.
    w1.seek(0);
    let r3 = w1.read(&part, &image, 0x80).unwrap();
    assert_eq!(r1, r3);
}

#[test]
fn a_zero_sized_file_stream_yields_zero_bytes_not_an_error() {
    let image: Vec<u8> = vec![0u8; 16];
    let part = st_gcn_stream(16);
    let node = Node { kind: NodeKind::File, name: b"EMPTY".to_vec(), offset: 4, length: 0 };
    let mut w = part.begin_file_stream(&node);
    let got = w.read(&part, &image, 64).unwrap();
    assert!(got.is_empty());
}

#[test]
fn window_reads_stop_at_the_window_end() {
    let image: Vec<u8> = (0..64u8).collect();
    let part = st_gcn_stream(64);
    let node = Node { kind: NodeKind::File, name: b"F".to_vec(), offset: 8, length: 4 };
    let mut w = part.begin_file_stream(&node);
    let got = w.read(&part, &image, 100).unwrap();
    assert_eq!(got, vec![8, 9, 10, 11]);
    let more = w.read(&part, &image, 100).unwrap();
    assert!(more.is_empty());
}

#[test]
fn a_truncated_image_surfaces_as_an_io_error() {
    let key = [0x3cu8; 16];
    let image = vec![0u8; 0x4000]; // shorter than one sector
    let part = st_wii_stream(&key, 0x8000, false);
    assert_eq!(part.read_at(&image, 0, 16).unwrap_err(), nod::Error::Io);
    let part = st_gcn_stream(100);
    let short: Vec<u8> = vec![0u8; 50];
    assert_eq!(part.read_at(&short, 40, 20).unwrap_err(), nod::Error::Io);
}
