//! Partition streams: a random-access, bounded view of a partition's logical
//! (decoded) bytes, and windowed streams scoped to one file's extent. Every
//! read is a pure function of the image bytes and the stream's parameters, so
//! independent streams over the same region always see the same bytes.

use vstd::prelude::*;
use vstd::arithmetic::div_mod::{lemma_fundamental_div_mod, lemma_fundamental_div_mod_converse, lemma_div_is_ordered};
use crate::Error;
use crate::fst::{fst_wf, node_count, node_matches, parse_fst, FstHeader, Node, NodeKind};
use crate::header::{Header, HEADER_SIZE};
use crate::sector::{
    decode_sector, failing_level, sector_base, sector_plain, sector_valid, SECTOR_DATA_SIZE,
    SECTOR_SIZE,
};
use crate::util::{be32, copy_range};

verus! {

/// Which backend decodes the partition's bytes.
#[derive(Debug)]
pub enum PartKind {
    /// GameCube: the partition is the raw image beyond its base; no
    /// transformation.
    Gcn,
    /// Wii: each sector's payload is decrypted with the partition title key
    /// and, on request, checked against the hash tree.
    Wii { title_key: Vec<u8>, validate: bool },
}

/// An open read stream over a disc partition's logical bytes.
#[derive(Debug)]
pub struct PartStream {
    /// How the logical bytes are decoded from the image.
    pub kind: PartKind,
    /// The physical byte offset of the partition's data region in the image.
    pub base: u64,
    /// The physical byte length of the partition's data region.
    pub size: u64,
    /// The logical read cursor.
    pub pos: u64,
}

impl PartStream {
    /// A 16-byte title key for Wii, bounded extents, and a cursor within the
    /// logical length.
    pub open spec fn wf(&self) -> bool {
        &&& match self.kind {
            PartKind::Gcn => true,
            PartKind::Wii { title_key, .. } => title_key.len() == 16,
        }
        &&& self.base + self.size + 0x8000 <= u64::MAX
        &&& self.pos <= self.logical_len()
    }

    /// True of the Wii backend.
    pub open spec fn is_wii(&self) -> bool {
        self.kind is Wii
    }

    /// The partition title key (empty for GameCube).
    pub open spec fn spec_key(&self) -> Seq<u8> {
        match self.kind {
            PartKind::Gcn => Seq::<u8>::empty(),
            PartKind::Wii { title_key, .. } => title_key@,
        }
    }

    /// Whether reads check the hash tree.
    pub open spec fn spec_validate(&self) -> bool {
        match self.kind {
            PartKind::Gcn => false,
            PartKind::Wii { validate, .. } => validate,
        }
    }

    /// The number of logical bytes the partition holds: everything for
    /// GameCube, the 0x7c00-byte payload of each whole sector for Wii.
    pub open spec fn logical_len(&self) -> int {
        match self.kind {
            PartKind::Gcn => self.size as int,
            PartKind::Wii { .. } => (self.size as int / 0x8000) * 0x7c00,
        }
    }

    /// The logical byte at offset `off`: raw for GameCube, the decrypted
    /// sector payload byte for Wii.
    pub open spec fn logical_byte(&self, image: Seq<u8>, off: int) -> u8 {
        match self.kind {
            PartKind::Gcn => image[self.base + off],
            PartKind::Wii { title_key, .. } => sector_plain(
                image,
                self.base as int,
                title_key@,
                off / 0x7c00,
            )[off % 0x7c00],
        }
    }

    /// How many bytes a read of `len` at `off` returns: `len` clamped to the
    /// logical length.
    pub open spec fn read_len(&self, off: int, len: int) -> int {
        if off >= self.logical_len() {
            0
        } else if len <= self.logical_len() - off {
            len
        } else {
            self.logical_len() - off
        }
    }

    /// Every physical byte needed to serve `n` logical bytes at `off` lies
    /// within the image.
    pub open spec fn extent_ok(&self, image: Seq<u8>, off: int, n: int) -> bool {
        n == 0 || match self.kind {
            PartKind::Gcn => self.base + off + n <= image.len(),
            PartKind::Wii { .. } => sector_base(self.base as int, (off + n - 1) / 0x7c00) + 0x8000
                <= image.len(),
        }
    }

    /// With validation enabled, every sector touched by `n` logical bytes at
    /// `off` passes its hash checks.
    pub open spec fn touched_valid(&self, image: Seq<u8>, off: int, n: int) -> bool {
        match self.kind {
            PartKind::Gcn => true,
            PartKind::Wii { title_key, validate } => !validate || n == 0 || forall|s: int|
                off / 0x7c00 <= s <= (off + n - 1) / 0x7c00 ==> sector_valid(
                    image,
                    self.base as int,
                    title_key@,
                    s,
                ),
        }
    }

    /// The bytes a read of `len` at `off` yields.
    pub open spec fn read_spec(&self, image: Seq<u8>, off: int, len: int) -> Seq<u8> {
        Seq::new(self.read_len(off, len) as nat, |k: int| self.logical_byte(image, off + k))
    }

    /// The logical length, computed.
    pub fn logical_len_u64(&self) -> (r: u64)
        requires
            self.wf(),
        ensures
            r == self.logical_len(),
    {
        match &self.kind {
            PartKind::Gcn => self.size,
            PartKind::Wii { .. } => {
                proof {
                    assert((self.size as int / 0x8000) * 0x7c00 <= self.size as int) by (nonlinear_arith);
                    assert((self.size as int / 0x8000) * 0x7c00 >= 0) by (nonlinear_arith);
                }
                self.size / 0x8000 * 0x7c00
            },
        }
    }

    /// Reads up to `len` logical bytes at offset `off`, without moving any
    /// cursor. Returns exactly the logical bytes there, clamped to the
    /// logical length; reading at or past the end yields an empty vector,
    /// never an error. Fails with `Io` exactly when the image is too short
    /// for the touched sectors, and with `Verification` exactly when
    /// validation is on and a touched sector fails its hash checks (the
    /// first such sector, with every earlier touched sector passing).
    pub fn read_at(&self, image: &Vec<u8>, off: u64, len: usize) -> (r: Result<Vec<u8>, Error>)
        requires
            self.wf(),
        ensures
            r is Ok <==> self.extent_ok(image@, off as int, self.read_len(off as int, len as int))
                && self.touched_valid(image@, off as int, self.read_len(off as int, len as int)),
            r matches Ok(buf) ==> buf@ == self.read_spec(image@, off as int, len as int),
            r matches Err(e) ==> match e {
                Error::Io => !self.extent_ok(
                    image@,
                    off as int,
                    self.read_len(off as int, len as int),
                ),
                Error::Verification(s, lvl) => {
                    &&& self.is_wii()
                    &&& self.spec_validate()
                    &&& off as int / 0x7c00 <= s as int <= (off + self.read_len(
                        off as int,
                        len as int,
                    ) - 1) / 0x7c00
                    &&& failing_level(image@, self.base as int, self.spec_key(), s as int, lvl)
                    &&& !sector_valid(image@, self.base as int, self.spec_key(), s as int)
                    &&& forall|s2: int|
                        off as int / 0x7c00 <= s2 < s as int ==> sector_valid(
                            image@,
                            self.base as int,
                            self.spec_key(),
                            s2,
                        )
                },
                _ => false,
            },
    {
        let llen = self.logical_len_u64();
        let n: usize = if off >= llen {
            0
        } else if (len as u64) <= llen - off {
            len
        } else {
            (llen - off) as usize
        };
        assert(n == self.read_len(off as int, len as int));
        if n == 0 {
            let empty: Vec<u8> = Vec::new();
            proof {
                assert(empty@ =~= self.read_spec(image@, off as int, len as int));
            }
            return Ok(empty);
        }
        match &self.kind {
            PartKind::Gcn => {
                if self.base + off + (n as u64) > image.len() as u64 {
                    return Err(Error::Io);
                }
                let buf = copy_range(image, (self.base + off) as usize, n);
                proof {
                    assert(buf@ =~= self.read_spec(image@, off as int, len as int));
                }
                Ok(buf)
            },
            PartKind::Wii { title_key, validate } => {
                let first: u64 = off / 0x7c00;
                let last: u64 = (off + (n as u64) - 1) / 0x7c00;
                proof {
                    lemma_div_is_ordered(off as int, off + n - 1, 0x7c00);
                    assert(last * 0x8000 <= self.size as int) by (nonlinear_arith)
                        requires
                            last == (off + n - 1) / 0x7c00,
                            off + n <= self.logical_len(),
                            self.logical_len() == (self.size as int / 0x8000) * 0x7c00,
                            n >= 1,
                    ;
                }
                if self.base + last * 0x8000 + 0x8000 > image.len() as u64 {
                    return Err(Error::Io);
                }
                let mut out: Vec<u8> = Vec::new();
                let mut written: usize = 0;
                while written < n
                    invariant
                        self.wf(),
                        self.is_wii(),
                        self.spec_key() == title_key@,
                        self.spec_validate() == *validate,
                        title_key.len() == 16,
                        n == self.read_len(off as int, len as int),
                        1 <= n,
                        off + n <= self.logical_len(),
                        written <= n,
                        first == off as int / 0x7c00,
                        last == (off + n - 1) / 0x7c00,
                        self.base + last * 0x8000 + 0x8000 <= image.len(),
                        out.len() == written,
                        forall|k: int|
                            0 <= k < written ==> out[k] == self.logical_byte(image@, off + k),
                        *validate && written > 0 ==> forall|s2: int|
                            first <= s2 <= (off + written - 1) / 0x7c00 ==> sector_valid(
                                image@,
                                self.base as int,
                                title_key@,
                                s2,
                            ),
                    decreases n - written,
                {
                    let cur: u64 = off + (written as u64);
                    let s: u64 = cur / 0x7c00;
                    let slo: usize = (cur % 0x7c00) as usize;
                    proof {
                        lemma_div_is_ordered(off as int, cur as int, 0x7c00);
                        lemma_div_is_ordered(cur as int, off + n - 1, 0x7c00);
                        assert(s * 0x8000 <= last * 0x8000) by (nonlinear_arith)
                            requires
                                s <= last,
                        ;
                    }
                    proof {
                        lemma_fundamental_div_mod(cur as int, 0x7c00);
                    }
                    let pt = match decode_sector(image, self.base, s, title_key, *validate) {
                        Ok(pt) => pt,
                        Err(e) => {
                            proof {
                                lemma_fundamental_div_mod(cur as int, 0x7c00);
                                if written > 0 {
                                    if slo == 0 {
                                        lemma_fundamental_div_mod_converse(
                                            cur - 1,
                                            0x7c00,
                                            s - 1,
                                            0x7bff,
                                        );
                                    } else {
                                        lemma_fundamental_div_mod_converse(
                                            cur - 1,
                                            0x7c00,
                                            s as int,
                                            slo - 1,
                                        );
                                    }
                                    assert((cur - 1) as int / 0x7c00 >= s - 1);
                                }
                                assert(forall|s2: int|
                                    first <= s2 < s ==> sector_valid(
                                        image@,
                                        self.base as int,
                                        title_key@,
                                        s2,
                                    ));
                            }
                            return Err(e);
                        },
                    };
                    let avail: usize = SECTOR_DATA_SIZE - slo;
                    let take: usize = if n - written < avail {
                        n - written
                    } else {
                        avail
                    };
                    let piece = copy_range(&pt, slo, take);
                    let mut piece = piece;
                    out.append(&mut piece);
                    proof {
                        assert forall|k: int| written <= k < written + take implies #[trigger] self.logical_byte(
                            image@,
                            off + k,
                        ) == pt@[slo + (k - written)] by {
                            lemma_fundamental_div_mod_converse(
                                off + k,
                                0x7c00,
                                s as int,
                                slo + (k - written),
                            );
                        }
                        if *validate {
                            if written > 0 {
                                if slo == 0 {
                                    lemma_fundamental_div_mod_converse(cur - 1, 0x7c00, s - 1, 0x7bff);
                                } else {
                                    lemma_fundamental_div_mod_converse(cur - 1, 0x7c00, s as int, slo - 1);
                                }
                            }
                            lemma_fundamental_div_mod_converse(
                                off + written + take - 1,
                                0x7c00,
                                s as int,
                                slo + take - 1,
                            );
                            assert forall|s2: int|
                                first <= s2 <= (off + written + take - 1) / 0x7c00 implies sector_valid(
                                image@,
                                self.base as int,
                                title_key@,
                                s2,
                            ) by {
                                if s2 == s as int {
                                    assert(sector_valid(image@, self.base as int, title_key@, s2));
                                } else {
                                    assert(s2 < s as int);
                                    assert(s2 <= (cur - 1) as int / 0x7c00);
                                }
                            }
                        }
                    }
                    written = written + take;
                }
                proof {
                    assert(out@ =~= self.read_spec(image@, off as int, len as int));
                    if *validate {
                        assert(self.touched_valid(image@, off as int, n as int));
                    }
                }
                Ok(out)
            },
        }
    }

    /// Reads up to `len` bytes at the cursor and advances it by what was
    /// read. The cursor and the stream's parameters are untouched by a
    /// failing read.
    pub fn read(&mut self, image: &Vec<u8>, len: usize) -> (r: Result<Vec<u8>, Error>)
        requires
            old(self).wf(),
        ensures
            final(self).kind == old(self).kind,
            final(self).base == old(self).base,
            final(self).size == old(self).size,
            final(self).wf(),
            r is Ok <==> old(self).extent_ok(
                image@,
                old(self).pos as int,
                old(self).read_len(old(self).pos as int, len as int),
            ) && old(self).touched_valid(
                image@,
                old(self).pos as int,
                old(self).read_len(old(self).pos as int, len as int),
            ),
            r matches Ok(buf) ==> buf@ == old(self).read_spec(image@, old(self).pos as int, len as int)
                && final(self).pos == old(self).pos + buf.len(),
            r is Err ==> *final(self) == *old(self),
            r matches Err(e) ==> (e is Io || e is Verification),
    {
        let r = self.read_at(image, self.pos, len);
        match r {
            Ok(buf) => {
                proof {
                    assert(old(self).read_len(old(self).pos as int, len as int) + old(self).pos
                        <= old(self).logical_len());
                }
                self.pos = self.pos + (buf.len() as u64);
                Ok(buf)
            },
            Err(e) => Err(e),
        }
    }

    /// The logical bytes at `off`, `n` of them, as a sequence.
    pub open spec fn logical_seq(&self, image: Seq<u8>, off: int, n: int) -> Seq<u8> {
        Seq::new(n as nat, |k: int| self.logical_byte(image, off + k))
    }

    /// The partition's own 0x440-byte header: the first logical bytes.
    pub open spec fn part_header_bytes(&self, image: Seq<u8>) -> Seq<u8> {
        self.logical_seq(image, 0, 0x440)
    }

    /// The logical offset of the file system table: the header's FST offset,
    /// in units of four bytes on Wii.
    pub open spec fn part_fst_off(&self, image: Seq<u8>) -> int {
        if self.is_wii() {
            4 * be32(self.part_header_bytes(image), 0x424)
        } else {
            be32(self.part_header_bytes(image), 0x424)
        }
    }

    /// The byte length of the file system table, from the header.
    pub open spec fn part_fst_sz(&self, image: Seq<u8>) -> int {
        be32(self.part_header_bytes(image), 0x428)
    }

    /// The logical bytes of the file system table.
    pub open spec fn part_fst_bytes(&self, image: Seq<u8>) -> Seq<u8> {
        self.logical_seq(image, self.part_fst_off(image), self.part_fst_sz(image))
    }

    /// Reading the file system succeeds: the partition holds its header, the
    /// announced table region lies within it, everything touched is readable
    /// (and, with validation on, hash-clean), and the table is well-formed.
    pub open spec fn read_header_ok(&self, image: Seq<u8>) -> bool {
        &&& self.logical_len() >= 0x440
        &&& self.extent_ok(image, 0, 0x440)
        &&& self.touched_valid(image, 0, 0x440)
        &&& self.part_fst_off(image) + self.part_fst_sz(image) <= self.logical_len()
        &&& self.extent_ok(image, self.part_fst_off(image), self.part_fst_sz(image))
        &&& self.touched_valid(image, self.part_fst_off(image), self.part_fst_sz(image))
        &&& fst_wf(self.part_fst_bytes(image))
    }

    /// The logical offset where a file node's data begins: the node's offset,
    /// in units of four bytes on Wii.
    pub open spec fn node_data_begin(&self, node: Node) -> int {
        if self.is_wii() {
            4 * node.offset as int
        } else {
            node.offset as int
        }
    }

    /// Moves the cursor to `pos`, clamped to the logical length.
    pub fn seek(&mut self, pos: u64)
        requires
            old(self).wf(),
        ensures
            final(self).kind == old(self).kind,
            final(self).base == old(self).base,
            final(self).size == old(self).size,
            final(self).wf(),
            final(self).pos == if pos as int <= old(self).logical_len() {
                pos as int
            } else {
                old(self).logical_len()
            },
    {
        let llen = self.logical_len_u64();
        self.pos = if pos <= llen {
            pos
        } else {
            llen
        };
    }
}


/// An open read stream for a disc partition: the buffered-read hint, the
/// partition's own header and file system, and windowed streams over single
/// files.
pub trait PartReadStream {
    /// The stream's model: backend kind, extents and cursor.
    spec fn model(&self) -> PartStream;

    /// The ideal size for buffered reads from this partition. GameCube discs
    /// have a data block size of 0x8000, whereas Wii discs have a data block
    /// size of 0x7c00.
    fn ideal_buffer_size(&self) -> (r: usize)
        ensures
            self.model().is_wii() ==> r == SECTOR_DATA_SIZE,
            !self.model().is_wii() ==> r == SECTOR_SIZE,
    ;

    /// Reads the partition's own header and its file system table, and
    /// reconstructs the node tree. Succeeds exactly when `read_header_ok`
    /// holds, and then returns exactly the nodes the table encodes.
    fn read_header(&self, image: &Vec<u8>) -> (r: Result<FstHeader, Error>)
        requires
            self.model().wf(),
        ensures
            r is Ok <==> self.model().read_header_ok(image@),
            r matches Ok(h) ==> {
                &&& h.wf()
                &&& h.nodes.len() == node_count(self.model().part_fst_bytes(image@))
                &&& forall|i: int|
                    0 <= i < h.nodes.len() ==> node_matches(
                        h.nodes[i],
                        self.model().part_fst_bytes(image@),
                        i,
                    )
            },
            r matches Err(e) ==> (e is Io || e is Verification || e is DiscFormat),
    ;

    /// Hands back a windowed stream scoped to a file node's extent, with its
    /// own cursor at the file's start: reads through it stop at the file's
    /// end instead of running into adjacent data.
    fn begin_file_stream(&self, node: &Node) -> (w: WindowedStream)
        requires
            node.kind == NodeKind::File,
        ensures
            w.begin == self.model().node_data_begin(*node),
            w.end == w.begin + node.length,
            w.pos == 0,
            w.wf(),
    ;
}

impl PartReadStream for PartStream {
    open spec fn model(&self) -> PartStream {
        *self
    }

    fn ideal_buffer_size(&self) -> (r: usize) {
        match &self.kind {
            PartKind::Gcn => SECTOR_SIZE,
            PartKind::Wii { .. } => SECTOR_DATA_SIZE,
        }
    }

    fn read_header(&self, image: &Vec<u8>) -> (r: Result<FstHeader, Error>) {
        let hdr_buf = match self.read_at(image, 0, HEADER_SIZE) {
            Ok(b) => b,
            Err(e) => {
                return Err(e);
            },
        };
        if hdr_buf.len() < HEADER_SIZE {
            assert(self.logical_len() < 0x440);
            return Err(Error::Io);
        }
        assert(self.logical_len() >= 0x440);
        proof {
            assert(hdr_buf@ =~= self.part_header_bytes(image@));
        }
        let hdr = match Header::parse(&hdr_buf) {
            Ok(h) => h,
            Err(e) => {
                return Err(e);
            },
        };
        let is_wii = match &self.kind {
            PartKind::Gcn => false,
            PartKind::Wii { .. } => true,
        };
        let fst_off: u64 = if is_wii {
            (hdr.fst_off as u64) * 4
        } else {
            hdr.fst_off as u64
        };
        assert(fst_off == self.part_fst_off(image@));
        let fst_sz: usize = hdr.fst_sz as usize;
        assert(fst_sz == self.part_fst_sz(image@));
        let llen = self.logical_len_u64();
        if fst_off > llen || (fst_sz as u64) > llen - fst_off {
            return Err(Error::Io);
        }
        let fst_buf = match self.read_at(image, fst_off, fst_sz) {
            Ok(b) => b,
            Err(e) => {
                return Err(e);
            },
        };
        proof {
            assert(fst_buf@ =~= self.part_fst_bytes(image@));
        }
        parse_fst(&fst_buf)
    }

    fn begin_file_stream(&self, node: &Node) -> (w: WindowedStream) {
        let begin: u64 = match &self.kind {
            PartKind::Gcn => node.offset as u64,
            PartKind::Wii { .. } => (node.offset as u64) * 4,
        };
        WindowedStream { begin, end: begin + (node.length as u64), pos: 0 }
    }
}

/// A bounded, seekable window over a partition stream's logical bytes, with
/// its own cursor: reads stop at the window's end rather than running into
/// adjacent data.
#[derive(Debug)]
pub struct WindowedStream {
    /// The logical offset where the window begins.
    pub begin: u64,
    /// The logical offset one past the window's last byte.
    pub end: u64,
    /// The cursor, relative to `begin`.
    pub pos: u64,
}

impl WindowedStream {
    /// Ordered bounds and a cursor inside the window.
    pub open spec fn wf(&self) -> bool {
        &&& self.begin <= self.end
        &&& self.pos <= self.end - self.begin
    }

    /// How many bytes remain between the cursor and the window's end.
    pub open spec fn remaining(&self) -> int {
        self.end - self.begin - self.pos
    }

    /// The bytes a read of `len` yields: `len` clamped to the window, then to
    /// the partition's logical length.
    pub open spec fn read_spec(
        &self,
        part: PartStream,
        image: Seq<u8>,
        len: int,
    ) -> Seq<u8> {
        part.read_spec(
            image,
            self.begin + self.pos,
            if len <= self.remaining() {
                len
            } else {
                self.remaining()
            },
        )
    }

    /// Reads up to `len` bytes at the window's cursor and advances it by what
    /// was read. A window with nothing remaining yields an empty vector,
    /// never an error. The window's bounds never move; a failing read leaves
    /// the cursor where it was.
    pub fn read(&mut self, part: &PartStream, image: &Vec<u8>, len: usize) -> (r: Result<
        Vec<u8>,
        Error,
    >)
        requires
            old(self).wf(),
            part.wf(),
        ensures
            final(self).begin == old(self).begin,
            final(self).end == old(self).end,
            final(self).wf(),
            r matches Ok(buf) ==> buf@ == old(self).read_spec(*part, image@, len as int)
                && final(self).pos == old(self).pos + buf.len(),
            r is Err ==> *final(self) == *old(self),
            r matches Err(e) ==> (e is Io || e is Verification),
            old(self).remaining() == 0 ==> (r matches Ok(buf) && buf.len() == 0),
            r is Ok <==> {
                let m = if len as int <= old(self).remaining() {
                    len as int
                } else {
                    old(self).remaining()
                };
                part.extent_ok(
                    image@,
                    old(self).begin + old(self).pos,
                    part.read_len(old(self).begin + old(self).pos, m),
                ) && part.touched_valid(
                    image@,
                    old(self).begin + old(self).pos,
                    part.read_len(old(self).begin + old(self).pos, m),
                )
            },
    {
        let rem = self.end - self.begin - self.pos;
        let m: usize = if (len as u64) <= rem {
            len
        } else {
            rem as usize
        };
        let r = part.read_at(image, self.begin + self.pos, m);
        match r {
            Ok(buf) => {
                proof {
                    assert(part.read_len(self.begin + self.pos, m as int) <= m as int);
                }
                self.pos = self.pos + (buf.len() as u64);
                Ok(buf)
            },
            Err(e) => Err(e),
        }
    }

    /// Moves the window's cursor, clamped to the window's length.
    pub fn seek(&mut self, pos: u64)
        requires
            old(self).wf(),
        ensures
            final(self).begin == old(self).begin,
            final(self).end == old(self).end,
            final(self).wf(),
            final(self).pos == if pos as int <= old(self).end - old(self).begin {
                pos as int
            } else {
                old(self).end - old(self).begin
            },
    {
        let wlen = self.end - self.begin;
        self.pos = if pos <= wlen {
            pos
        } else {
            wlen
        };
    }
}

/// Reading the same region twice, through independent windowed streams over
/// the same partition and image, yields byte-identical output: what a
/// windowed read returns is a function of the window's bounds and cursor, the
/// partition's parameters and the image alone.
pub proof fn lemma_windowed_reads_agree(
    part: PartStream,
    w1: WindowedStream,
    w2: WindowedStream,
    image: Seq<u8>,
    len: int,
)
    requires
        w1.begin == w2.begin,
        w1.end == w2.end,
        w1.pos == w2.pos,
    ensures
        w1.read_spec(part, image, len) == w2.read_spec(part, image, len),
{
}

} // verus!
