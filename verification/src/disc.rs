//! Disc-level access: format detection from the shared header, the Wii
//! partition tables and per-partition ticket material, and the opening of the
//! first data partition as a decoded read stream.

use vstd::prelude::*;
use crate::{DiscFormatReason, Error};
use crate::crypto::{aes128_cbc_decrypt, cbc_decrypt_of, common_key, common_key_spec};
use crate::header::{header_matches, Header, GCN_MAGIC, HEADER_SIZE, WII_MAGIC};
use crate::stream::{PartKind, PartStream};
use crate::util::{be32, copy_range, read_u32_be};

verus! {

/// The image carries the Wii magic value in its header.
pub open spec fn is_wii_image(image: Seq<u8>) -> bool {
    be32(image, 0x18) == WII_MAGIC
}

/// The image carries the GameCube magic value in its header.
pub open spec fn is_gcn_image(image: Seq<u8>) -> bool {
    be32(image, 0x1c) == GCN_MAGIC
}

/// The entry count of partition-table group `g` (of four groups at 0x40000).
pub open spec fn group_count(image: Seq<u8>, g: int) -> int {
    be32(image, 0x40000 + 8 * g)
}

/// The byte offset of group `g`'s entry table (stored in units of four
/// bytes).
pub open spec fn group_off(image: Seq<u8>, g: int) -> int {
    4 * be32(image, 0x40004 + 8 * g)
}

/// The byte offset of partition `e` of group `g` (stored in units of four
/// bytes).
pub open spec fn entry_off(image: Seq<u8>, g: int, e: int) -> int {
    4 * be32(image, group_off(image, g) + 8 * e)
}

/// The type of partition `e` of group `g`: 0 is a data partition.
pub open spec fn entry_type(image: Seq<u8>, g: int, e: int) -> int {
    be32(image, group_off(image, g) + 8 * e + 4)
}

/// The encrypted title key in the ticket of the partition at `off`.
pub open spec fn ticket_enc_key(image: Seq<u8>, off: int) -> Seq<u8> {
    image.subrange(off + 0x1bf, off + 0x1cf)
}

/// The IV for unwrapping the title key: the ticket's 8-byte title id
/// followed by eight zero bytes.
pub open spec fn ticket_iv(image: Seq<u8>, off: int) -> Seq<u8> {
    image.subrange(off + 0x1dc, off + 0x1e4) + Seq::new(8, |i: int| 0u8)
}

/// The ticket's common-key index byte.
pub open spec fn ticket_key_index(image: Seq<u8>, off: int) -> int {
    image[off + 0x1f1] as int
}

/// The partition's title key: the ticket's encrypted key, unwrapped with the
/// selected common key under the ticket IV.
pub open spec fn part_title_key(image: Seq<u8>, off: int) -> Seq<u8> {
    cbc_decrypt_of(
        common_key_spec(ticket_key_index(image, off)),
        ticket_iv(image, off),
        ticket_enc_key(image, off),
    )
}

/// The byte offset of the partition's data region, relative to the partition
/// (stored in units of four bytes).
pub open spec fn part_data_off(image: Seq<u8>, off: int) -> int {
    4 * be32(image, off + 0x2b8)
}

/// The byte length of the partition's data region (stored in units of four
/// bytes).
pub open spec fn part_data_size(image: Seq<u8>, off: int) -> int {
    4 * be32(image, off + 0x2bc)
}

/// One partition of a Wii disc, with its ticket material already read and
/// its title key unwrapped.
#[derive(Debug)]
pub struct WiiPartInfo {
    /// The byte offset of the partition in the image.
    pub offset: u64,
    /// The partition type: 0 is a data partition.
    pub part_type: u32,
    /// The unwrapped 16-byte AES title key for the data region.
    pub title_key: Vec<u8>,
    /// The byte offset of the data region, relative to the partition start.
    pub data_off: u64,
    /// The byte length of the data region.
    pub data_size: u64,
}

impl WiiPartInfo {
    /// A 16-byte key and extents bounded by what 32-bit fields shifted by two
    /// can hold.
    pub open spec fn wf(&self) -> bool {
        &&& self.title_key.len() == 16
        &&& self.offset <= 0x3_FFFF_FFFC
        &&& self.data_off <= 0x3_FFFF_FFFC
        &&& self.data_size <= 0x3_FFFF_FFFC
    }
}

/// Partition `p` holds exactly what the image stores for entry `e` of group
/// `g`.
pub open spec fn part_info_matches(p: WiiPartInfo, image: Seq<u8>, g: int, e: int) -> bool {
    &&& p.offset == entry_off(image, g, e)
    &&& p.part_type == entry_type(image, g, e)
    &&& p.title_key@ == part_title_key(image, entry_off(image, g, e))
    &&& p.data_off == part_data_off(image, entry_off(image, g, e))
    &&& p.data_size == part_data_size(image, entry_off(image, g, e))
}

/// Entry `e` of group `g` can be read in full: the table slot, the ticket
/// region, and a known common-key index.
pub open spec fn entry_readable(image: Seq<u8>, g: int, e: int) -> bool {
    &&& group_off(image, g) + 8 * e + 8 <= image.len()
    &&& entry_off(image, g, e) + 0x2c0 <= image.len()
    &&& ticket_key_index(image, entry_off(image, g, e)) <= 1
}

/// The partition stored at the flat position of entry `e` of group `g`
/// matches what the image stores there.
pub open spec fn parts_entry_matches(
    parts: Seq<WiiPartInfo>,
    image: Seq<u8>,
    g: int,
    e: int,
) -> bool {
    part_info_matches(parts[counts_before(image, g) + e], image, g, e)
}

/// How many partitions the groups before `g` announce.
pub open spec fn counts_before(image: Seq<u8>, g: int) -> int
    decreases g,
{
    if g <= 0 {
        0
    } else {
        counts_before(image, g - 1) + group_count(image, g - 1)
    }
}

/// Group sums only grow: each group announces a non-negative count.
pub proof fn lemma_counts_before_mono(image: Seq<u8>, a: int, b: int)
    requires
        0 <= a <= b,
    ensures
        counts_before(image, a) <= counts_before(image, b),
    decreases b - a,
{
    if a < b {
        lemma_counts_before_mono(image, a, b - 1);
        assert(group_count(image, b - 1) >= 0);
    }
}

/// The partition tables and every announced ticket can be read: the table
/// region exists, no group announces more than four entries, every entry and
/// ticket lies within the image, and every ticket selects a known common
/// key.
pub open spec fn wii_tables_ok(image: Seq<u8>) -> bool {
    &&& image.len() >= 0x40020
    &&& forall|g: int| 0 <= g < 4 ==> group_count(image, g) <= 4
    &&& forall|g: int, e: int|
        0 <= g < 4 && 0 <= e < group_count(image, g) ==> entry_readable(image, g, e)
}

/// Reads all partition tables and, for each announced partition, its ticket:
/// the encrypted title key is unwrapped with the common key the ticket
/// selects. Succeeds exactly when every table and ticket can be read.
fn open_wii_parts(image: &Vec<u8>) -> (r: Result<Vec<WiiPartInfo>, Error>)
    ensures
        r is Ok <==> wii_tables_ok(image@),
        r matches Ok(parts) ==> {
            &&& parts.len() == counts_before(image@, 4)
            &&& forall|i: int| 0 <= i < parts.len() ==> parts[i].wf()
            &&& forall|g: int, e: int|
                0 <= g < 4 && 0 <= e < group_count(image@, g) ==> parts_entry_matches(
                    parts@,
                    image@,
                    g,
                    e,
                )
        },
        r matches Err(err) ==> match err {
            Error::Io => !wii_tables_ok(image@),
            Error::DiscFormat(reason) => match reason {
                DiscFormatReason::OversizedPartitionTable => image.len() >= 0x40020 && exists|g: int|
                    0 <= g < 4 && group_count(image@, g) > 4,
                DiscFormatReason::BadCommonKeyIndex => image.len() >= 0x40020 && exists|g: int, e: int|
                    #![trigger entry_off(image@, g, e)]
                    0 <= g < 4 && 0 <= e < group_count(image@, g) && ticket_key_index(
                        image@,
                        entry_off(image@, g, e),
                    ) > 1,
                _ => false,
            },
            _ => false,
        },
{
    if image.len() < 0x40020 {
        return Err(Error::Io);
    }
    let mut parts: Vec<WiiPartInfo> = Vec::new();
    let mut g: usize = 0;
    while g < 4
        invariant
            g <= 4,
            image.len() >= 0x40020,
            parts.len() == counts_before(image@, g as int),
            forall|i: int| 0 <= i < parts.len() ==> parts[i].wf(),
            forall|g2: int| 0 <= g2 < g ==> group_count(image@, g2) <= 4,
            forall|g2: int, e2: int|
                0 <= g2 < g && 0 <= e2 < group_count(image@, g2) ==> entry_readable(
                    image@,
                    g2,
                    e2,
                ),
            forall|g2: int, e2: int|
                0 <= g2 < g && 0 <= e2 < group_count(image@, g2) ==> parts_entry_matches(
                    parts@,
                    image@,
                    g2,
                    e2,
                ),
        decreases 4 - g,
    {
        let count32 = read_u32_be(image, 0x40000 + 8 * g);
        if count32 > 4 {
            assert(group_count(image@, g as int) > 4);
            return Err(Error::DiscFormat(DiscFormatReason::OversizedPartitionTable));
        }
        let count = count32 as usize;
        let toff: u64 = 4 * (read_u32_be(image, 0x40004 + 8 * g) as u64);
        assert(toff == group_off(image@, g as int));
        let mut e: usize = 0;
        while e < count
            invariant
                g < 4,
                e <= count,
                image.len() >= 0x40020,
                count == group_count(image@, g as int),
                count <= 4,
                toff == group_off(image@, g as int),
                parts.len() == counts_before(image@, g as int) + e,
                forall|i: int| 0 <= i < parts.len() ==> parts[i].wf(),
                forall|g2: int| 0 <= g2 < g ==> group_count(image@, g2) <= 4,
                forall|g2: int, e2: int|
                    0 <= g2 < g && 0 <= e2 < group_count(image@, g2) ==> entry_readable(
                        image@,
                        g2,
                        e2,
                    ),
                forall|g2: int, e2: int|
                    0 <= g2 < g && 0 <= e2 < group_count(image@, g2) ==> parts_entry_matches(
                        parts@,
                        image@,
                        g2,
                        e2,
                    ),
                forall|e2: int| 0 <= e2 < e ==> entry_readable(image@, g as int, e2),
                forall|e2: int|
                    0 <= e2 < e ==> parts_entry_matches(parts@, image@, g as int, e2),
            decreases count - e,
        {
            if toff + 8 * (e as u64) + 8 > image.len() as u64 {
                assert(!entry_readable(image@, g as int, e as int));
                return Err(Error::Io);
            }
            let eoff = (toff + 8 * (e as u64)) as usize;
            let poff64: u64 = 4 * (read_u32_be(image, eoff) as u64);
            let ptype = read_u32_be(image, eoff + 4);
            assert(poff64 == entry_off(image@, g as int, e as int));
            assert(ptype == entry_type(image@, g as int, e as int));
            if poff64 + 0x2c0 > image.len() as u64 {
                assert(!entry_readable(image@, g as int, e as int));
                return Err(Error::Io);
            }
            let poff = poff64 as usize;
            let key_idx = image[poff + 0x1f1];
            if key_idx > 1 {
                assert(ticket_key_index(image@, entry_off(image@, g as int, e as int)) > 1);
                assert(!entry_readable(image@, g as int, e as int));
                return Err(Error::DiscFormat(DiscFormatReason::BadCommonKeyIndex));
            }
            let ck = match common_key(key_idx) {
                Some(k) => k,
                None => {
                    assert(false);
                    return Err(Error::DiscFormat(DiscFormatReason::BadCommonKeyIndex));
                },
            };
            let enc_key = copy_range(image, poff + 0x1bf, 16);
            let mut iv = copy_range(image, poff + 0x1dc, 8);
            iv.push(0);
            iv.push(0);
            iv.push(0);
            iv.push(0);
            iv.push(0);
            iv.push(0);
            iv.push(0);
            iv.push(0);
            proof {
                assert(iv@ =~= ticket_iv(image@, poff64 as int));
                assert(enc_key@ =~= ticket_enc_key(image@, poff64 as int));
            }
            let title_key = aes128_cbc_decrypt(&ck, &iv, &enc_key);
            let data_off: u64 = 4 * (read_u32_be(image, poff + 0x2b8) as u64);
            let data_size: u64 = 4 * (read_u32_be(image, poff + 0x2bc) as u64);
            let p = WiiPartInfo { offset: poff64, part_type: ptype, title_key, data_off, data_size };
            assert(p.wf());
            assert(part_info_matches(p, image@, g as int, e as int));
            assert(entry_readable(image@, g as int, e as int));
            let ghost old_parts = parts@;
            parts.push(p);
            proof {
                assert(parts@[counts_before(image@, g as int) + e] == p);
                assert(parts_entry_matches(parts@, image@, g as int, e as int));
                lemma_counts_before_mono(image@, 0, g as int);
                assert forall|e2: int| 0 <= e2 < e + 1 implies parts_entry_matches(
                    parts@,
                    image@,
                    g as int,
                    e2,
                ) by {
                    if e2 < e {
                        assert(parts_entry_matches(old_parts, image@, g as int, e2));
                        assert(0 <= counts_before(image@, g as int) + e2 < old_parts.len());
                        assert(parts@[counts_before(image@, g as int) + e2] == old_parts[
                            counts_before(image@, g as int) + e2
                        ]);
                    }
                }
                assert forall|g2: int, e2: int|
                    0 <= g2 < g && 0 <= e2 < group_count(image@, g2) implies parts_entry_matches(
                    parts@,
                    image@,
                    g2,
                    e2,
                ) by {
                    assert(parts_entry_matches(old_parts, image@, g2, e2));
                    lemma_counts_before_mono(image@, 0, g2);
                    lemma_counts_before_mono(image@, g2 + 1, g as int);
                    assert(counts_before(image@, g2 + 1) == counts_before(image@, g2)
                        + group_count(image@, g2));
                    assert(0 <= counts_before(image@, g2) + e2 < old_parts.len());
                    assert(parts@[counts_before(image@, g2) + e2] == old_parts[
                        counts_before(image@, g2) + e2
                    ]);
                }
            }
            e = e + 1;
        }
        proof {
            assert(counts_before(image@, g + 1) == counts_before(image@, g as int) + count);
            assert forall|g2: int, e2: int|
                0 <= g2 < g + 1 && 0 <= e2 < group_count(image@, g2) implies entry_readable(
                image@,
                g2,
                e2,
            ) && parts_entry_matches(parts@, image@, g2, e2) by {
                if g2 == g as int {
                    assert(entry_readable(image@, g as int, e2));
                    assert(parts_entry_matches(parts@, image@, g as int, e2));
                }
            }
        }
        g = g + 1;
    }
    assert(wii_tables_ok(image@));
    Ok(parts)
}

/// The GameCube backend: the single data partition is the image itself.
#[derive(Debug)]
pub struct DiscGCN {
    /// The disc header.
    pub header: Header,
}

/// The Wii backend: the header and every announced partition with its
/// unwrapped title key.
#[derive(Debug)]
pub struct DiscWii {
    /// The disc header.
    pub header: Header,
    /// All partitions, group by group.
    pub parts: Vec<WiiPartInfo>,
}

impl DiscWii {
    /// Every partition's extents and key are well-formed.
    pub open spec fn wf(&self) -> bool {
        forall|i: int| 0 <= i < self.parts.len() ==> self.parts[i].wf()
    }
}

/// A disc's header and partition information: the closed set of the two
/// supported backends.
#[derive(Debug)]
pub enum Disc {
    /// A GameCube disc.
    Gcn(DiscGCN),
    /// A Wii disc.
    Wii(DiscWii),
}

/// Contains a disc's header and partition information: the header, and an
/// open stream for the first data partition.
pub trait DiscBase {
    /// The disc header the backend holds.
    spec fn header_spec(&self) -> Header;

    /// The backend's well-formedness.
    spec fn disc_wf(&self) -> bool;

    /// True of the Wii backend.
    spec fn is_wii_disc(&self) -> bool;

    /// The Wii backend's partitions (empty for GameCube).
    spec fn parts_spec(&self) -> Seq<WiiPartInfo>;

    /// Retrieves the disc's header.
    fn get_header(&self) -> (h: &Header)
        ensures
            *h == self.header_spec(),
    ;

    /// Opens a read stream for the first data partition. For GameCube that is
    /// the image itself from offset zero; for Wii it is the first type-0
    /// partition's data region, decrypted with its title key and, when
    /// `validate_hashes` is set, hash-verified while reading. Fails exactly
    /// when a Wii disc announces no data partition.
    fn get_data_partition(&self, image: &Vec<u8>, validate_hashes: bool) -> (r: Result<
        PartStream,
        Error,
    >)
        requires
            self.disc_wf(),
            image.len() + 0x8000 <= u64::MAX,
        ensures
            r is Ok <==> (!self.is_wii_disc() || first_data_part(self.parts_spec(), 0) is Some),
            r matches Ok(s) ==> {
                &&& s.wf()
                &&& s.pos == 0
                &&& !self.is_wii_disc() ==> (!s.is_wii() && s.base == 0 && s.size == image.len())
                &&& self.is_wii_disc() ==> (first_data_part(self.parts_spec(), 0) matches Some(i)
                    && {
                    &&& s.is_wii()
                    &&& s.spec_key() == self.parts_spec()[i].title_key@
                    &&& s.spec_validate() == validate_hashes
                    &&& s.base == self.parts_spec()[i].offset + self.parts_spec()[i].data_off
                    &&& s.size == self.parts_spec()[i].data_size
                })
            },
            r matches Err(e) ==> e == Error::DiscFormat(DiscFormatReason::NoDataPartition)
                && self.is_wii_disc() && first_data_part(self.parts_spec(), 0) is None,
    ;
}

/// The first data partition (type 0) at or after position `i`.
pub open spec fn first_data_part(parts: Seq<WiiPartInfo>, i: int) -> Option<int>
    decreases parts.len() - i,
{
    if i < 0 || i >= parts.len() {
        None::<int>
    } else if parts[i].part_type == 0 {
        Some(i)
    } else {
        first_data_part(parts, i + 1)
    }
}

impl DiscBase for Disc {
    open spec fn header_spec(&self) -> Header {
        match self {
            Disc::Gcn(d) => d.header,
            Disc::Wii(d) => d.header,
        }
    }

    open spec fn disc_wf(&self) -> bool {
        match self {
            Disc::Gcn(_) => true,
            Disc::Wii(d) => d.wf(),
        }
    }

    open spec fn is_wii_disc(&self) -> bool {
        self is Wii
    }

    open spec fn parts_spec(&self) -> Seq<WiiPartInfo> {
        match self {
            Disc::Gcn(_) => Seq::<WiiPartInfo>::empty(),
            Disc::Wii(d) => d.parts@,
        }
    }

    fn get_header(&self) -> (h: &Header) {
        match self {
            Disc::Gcn(d) => &d.header,
            Disc::Wii(d) => &d.header,
        }
    }

    fn get_data_partition(&self, image: &Vec<u8>, validate_hashes: bool) -> (r: Result<
        PartStream,
        Error,
    >) {
        match self {
            Disc::Gcn(_) => {
                let s = PartStream {
                    kind: PartKind::Gcn,
                    base: 0,
                    size: image.len() as u64,
                    pos: 0,
                };
                Ok(s)
            },
            Disc::Wii(d) => {
                let mut i: usize = 0;
                let n = d.parts.len();
                while i < n
                    invariant
                        d.wf(),
                        *self == Disc::Wii(*d),
                        image.len() + 0x8000 <= u64::MAX,
                        i <= n,
                        n == d.parts.len(),
                        first_data_part(d.parts@, 0) == first_data_part(d.parts@, i as int),
                    decreases n - i,
                {
                    if d.parts[i].part_type == 0 {
                        let p = &d.parts[i];
                        assert(p.wf());
                        let key = copy_range(&p.title_key, 0, p.title_key.len());
                        proof {
                            assert(key@ =~= p.title_key@);
                        }
                        let s = PartStream {
                            kind: PartKind::Wii { title_key: key, validate: validate_hashes },
                            base: p.offset + p.data_off,
                            size: p.data_size,
                            pos: 0,
                        };
                        proof {
                            assert((s.size as int / 0x8000) * 0x7c00 >= 0) by (nonlinear_arith);
                            assert(first_data_part(d.parts@, i as int) == Some(i as int));
                            assert(first_data_part(d.parts@, 0) == Some(i as int));
                            assert(s.spec_key() == p.title_key@);
                            assert(s.spec_validate() == validate_hashes);
                            assert(s.is_wii());
                            assert(s.base == p.offset + p.data_off);
                            assert(s.size == p.data_size);
                        }
                        assert(s.wf());
                        return Ok(s);
                    }
                    i = i + 1;
                }
                Err(Error::DiscFormat(DiscFormatReason::NoDataPartition))
            },
        }
    }
}

/// Creates a backend for the image: Wii when the Wii magic matches, else
/// GameCube when the GameCube magic matches — in that order — and a format
/// error when neither does. For a Wii image the partition tables and tickets
/// are read at once.
pub fn new_disc_base(image: &Vec<u8>) -> (r: Result<Disc, Error>)
    ensures
        r is Ok <==> image.len() >= HEADER_SIZE && (is_wii_image(image@) || is_gcn_image(image@))
            && (is_wii_image(image@) ==> wii_tables_ok(image@)),
        r matches Ok(d) ==> {
            &&& d.disc_wf()
            &&& header_matches(d.header_spec(), image@)
            &&& d is Wii <==> is_wii_image(image@)
            &&& d is Gcn <==> (!is_wii_image(image@) && is_gcn_image(image@))
            &&& is_wii_image(image@) ==> {
                &&& d.parts_spec().len() == counts_before(image@, 4)
                &&& forall|g: int, e: int|
                    0 <= g < 4 && 0 <= e < group_count(image@, g) ==> parts_entry_matches(
                        d.parts_spec(),
                        image@,
                        g,
                        e,
                    )
            }
        },
        r matches Err(err) ==> match err {
            Error::Io => image.len() < HEADER_SIZE || (is_wii_image(image@) && !wii_tables_ok(
                image@,
            )),
            Error::DiscFormat(reason) => match reason {
                DiscFormatReason::BadMagic => image.len() >= HEADER_SIZE && !is_wii_image(image@)
                    && !is_gcn_image(image@),
                DiscFormatReason::OversizedPartitionTable => image.len() >= 0x40020
                    && is_wii_image(image@) && exists|g: int|
                    0 <= g < 4 && group_count(image@, g) > 4,
                DiscFormatReason::BadCommonKeyIndex => image.len() >= 0x40020 && is_wii_image(
                    image@,
                ) && exists|g: int, e: int|
                    0 <= g < 4 && 0 <= e < group_count(image@, g) && ticket_key_index(
                        image@,
                        entry_off(image@, g, e),
                    ) > 1,
                _ => false,
            },
            _ => false,
        },
{
    let header = match Header::parse(image) {
        Ok(h) => h,
        Err(e) => {
            return Err(e);
        },
    };
    if header.is_wii() {
        let parts = match open_wii_parts(image) {
            Ok(p) => p,
            Err(e) => {
                return Err(e);
            },
        };
        Ok(Disc::Wii(DiscWii { header, parts }))
    } else if header.is_gamecube() {
        Ok(Disc::Gcn(DiscGCN { header }))
    } else {
        Err(Error::DiscFormat(DiscFormatReason::BadMagic))
    }
}

} // verus!
