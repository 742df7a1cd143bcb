//! The file system table: a flat array of fixed-size node records followed by
//! a string table. A directory's children are the contiguous run of nodes
//! between its own index + 1 and its stored end index, which encodes the tree
//! without child pointers.

use vstd::prelude::*;
use vstd::string::*;
use crate::{DiscFormatReason, Error};
use crate::util::{be24, be32, first_zero, null_terminated, copy_until_zero, bytes_eq, read_u24_be, read_u32_be};

verus! {

/// The size in bytes of one node record.
pub const FST_NODE_SIZE: usize = 12;

/// Whether a node names a file or a directory.
#[derive(Clone, Copy, Debug, PartialEq, Eq, Structural)]
pub enum NodeKind {
    File,
    Directory,
}

/// One node of the file system table.
#[derive(Clone, Debug)]
pub struct Node {
    /// File or directory.
    pub kind: NodeKind,
    /// The node's name, resolved from the string table.
    pub name: Vec<u8>,
    /// For a file: the data offset (on Wii discs in units of four bytes).
    /// For a directory: the index of its parent.
    pub offset: u32,
    /// For a file: its size in bytes. For a directory: the index one past its
    /// last descendant.
    pub length: u32,
}

/// The node count stored in the root node's length field.
pub open spec fn node_count(data: Seq<u8>) -> int {
    be32(data, 8)
}

/// The tag byte of node record `i`: 0 names a file, 1 a directory.
pub open spec fn node_flag(data: Seq<u8>, i: int) -> int {
    data[12 * i] as int
}

/// The string-table byte offset of node `i`'s name.
pub open spec fn node_name_off(data: Seq<u8>, i: int) -> int {
    be24(data, 12 * i + 1)
}

/// The offset field of node record `i`.
pub open spec fn node_offset(data: Seq<u8>, i: int) -> int {
    be32(data, 12 * i + 4)
}

/// The length field of node record `i`.
pub open spec fn node_length(data: Seq<u8>, i: int) -> int {
    be32(data, 12 * i + 8)
}

/// The string table: everything after the node records.
pub open spec fn string_table(data: Seq<u8>) -> Seq<u8> {
    data.skip(12 * node_count(data))
}

/// Node `i`'s name: the zero-terminated byte run at its name offset in the
/// string table.
pub open spec fn node_name(data: Seq<u8>, i: int) -> Seq<u8> {
    null_terminated(string_table(data).skip(node_name_off(data, i)))
}

/// Record `i` is well-formed: a known tag, a name that lies in the string
/// table and ends with a terminator, and, for a directory, an end index that
/// exceeds its own index without exceeding the node count.
pub open spec fn node_wf(data: Seq<u8>, i: int) -> bool {
    let st = string_table(data);
    let noff = node_name_off(data, i);
    &&& (node_flag(data, i) == 0 || node_flag(data, i) == 1)
    &&& noff <= st.len()
    &&& first_zero(st.skip(noff)) < st.len() - noff
    &&& (node_flag(data, i) == 1 ==> i < node_length(data, i) <= node_count(data))
}

/// The whole table is well-formed: long enough for its own records, a
/// directory at the root whose end index is the node count, and every record
/// well-formed.
pub open spec fn fst_wf(data: Seq<u8>) -> bool {
    &&& data.len() >= 12
    &&& node_flag(data, 0) == 1
    &&& node_count(data) >= 1
    &&& 12 * node_count(data) <= data.len()
    &&& forall|i: int| 0 <= i < node_count(data) ==> node_wf(data, i)
}

/// Node `n` carries exactly what record `i` stores.
pub open spec fn node_matches(n: Node, data: Seq<u8>, i: int) -> bool {
    &&& (n.kind == NodeKind::Directory <==> node_flag(data, i) == 1)
    &&& n.name@ == node_name(data, i)
    &&& n.offset == node_offset(data, i)
    &&& n.length == node_length(data, i)
}

/// The index right after node `j` and the subtree below it: for a directory
/// its end index, for a file the next index.
pub open spec fn next_sibling(nodes: Seq<Node>, j: int) -> int {
    if nodes[j].kind == NodeKind::Directory && nodes[j].length > j {
        nodes[j].length as int
    } else {
        j + 1
    }
}

/// The first direct child with the given name in the run of children
/// beginning at `j` and ending at `end`.
pub open spec fn find_child(nodes: Seq<Node>, j: int, end: int, name: Seq<u8>) -> Option<int>
    decreases end - j,
{
    if j < 0 || j >= end {
        None::<int>
    } else if nodes[j].name@ == name {
        Some(j)
    } else {
        let next = next_sibling(nodes, j);
        find_child(nodes, if next < end { next } else { end }, end, name)
    }
}

/// Resolving `segs` from directory `d`: each segment names a direct child of
/// the directory reached so far; a file resolves only as the final segment.
pub open spec fn fst_find(nodes: Seq<Node>, d: int, segs: Seq<Seq<u8>>) -> Option<int>
    decreases segs.len(),
{
    if segs.len() == 0 {
        Some(d)
    } else {
        match find_child(nodes, d + 1, nodes[d].length as int, segs[0]) {
            Option::None => None::<int>,
            Option::Some(c) => {
                if segs.len() == 1 {
                    Some(c)
                } else if nodes[c].kind == NodeKind::Directory {
                    fst_find(nodes, c, segs.drop_first())
                } else {
                    None::<int>
                }
            },
        }
    }
}

/// The index of the first path separator at or after `i`, or the path's
/// length if none follows.
pub open spec fn seg_end(p: Seq<u8>, i: int) -> int
    decreases p.len() - i,
{
    if i < 0 || i >= p.len() {
        p.len() as int
    } else if p[i] == 47u8 {
        i
    } else {
        seg_end(p, i + 1)
    }
}

pub proof fn lemma_seg_end(p: Seq<u8>, i: int)
    requires
        0 <= i <= p.len(),
    ensures
        i <= seg_end(p, i) <= p.len(),
        forall|j: int| i <= j < seg_end(p, i) ==> p[j] != 47u8,
        seg_end(p, i) < p.len() ==> p[seg_end(p, i)] == 47u8,
    decreases p.len() - i,
{
    if i < p.len() && p[i] != 47u8 {
        lemma_seg_end(p, i + 1);
    }
}

/// The path split into its non-empty segments, reading from position `i` on.
pub open spec fn split_path_from(p: Seq<u8>, i: int) -> Seq<Seq<u8>>
    decreases p.len() - i,
    via split_path_from_dec
{
    if i < 0 || i >= p.len() {
        Seq::<Seq<u8>>::empty()
    } else if p[i] == 47u8 {
        split_path_from(p, i + 1)
    } else {
        seq![p.subrange(i, seg_end(p, i))] + split_path_from(p, seg_end(p, i))
    }
}

#[via_fn]
proof fn split_path_from_dec(p: Seq<u8>, i: int) {
    if 0 <= i && i < p.len() && p[i] != 47u8 {
        lemma_seg_end(p, i);
    }
}

/// The path split on separators into its non-empty segments.
pub open spec fn split_path(p: Seq<u8>) -> Seq<Seq<u8>> {
    split_path_from(p, 0)
}

/// A run without separators that ends at a separator or at the path's end is
/// exactly one segment scan.
proof fn lemma_seg_end_eq(p: Seq<u8>, start: int, i: int)
    requires
        0 <= start <= i <= p.len(),
        forall|j: int| start <= j < i ==> p[j] != 47u8,
        i < p.len() ==> p[i] == 47u8,
    ensures
        seg_end(p, start) == i,
    decreases i - start,
{
    if start < i {
        lemma_seg_end_eq(p, start + 1, i);
    }
}

/// Splits `p` on path separators, skipping empty segments.
fn split_segments(p: &Vec<u8>) -> (r: Vec<Vec<u8>>)
    ensures
        r.deep_view() == split_path(p@),
{
    let mut r: Vec<Vec<u8>> = Vec::new();
    let mut i: usize = 0;
    proof {
        assert(r.deep_view() + split_path_from(p@, 0) =~~= split_path(p@));
    }
    while i < p.len()
        invariant
            i <= p.len(),
            r.deep_view() + split_path_from(p@, i as int) == split_path(p@),
        decreases p.len() - i,
    {
        if p[i] == 47u8 {
            i = i + 1;
        } else {
            let ghost prev = r.deep_view();
            let start = i;
            let mut seg: Vec<u8> = Vec::new();
            while i < p.len() && p[i] != 47u8
                invariant
                    start <= i <= p.len(),
                    seg@ =~= p@.subrange(start as int, i as int),
                    forall|j: int| start <= j < i ==> p@[j] != 47u8,
                decreases p.len() - i,
            {
                seg.push(p[i]);
                i = i + 1;
            }
            proof {
                lemma_seg_end_eq(p@, start as int, i as int);
                assert(split_path_from(p@, start as int) =~~= seq![seg@] + split_path_from(
                    p@,
                    i as int,
                ));
            }
            r.push(seg);
            proof {
                assert(r.deep_view() =~~= prev + seq![seg@]);
                assert(r.deep_view() + split_path_from(p@, i as int) =~~= prev + split_path_from(
                    p@,
                    start as int,
                ));
            }
        }
    }
    proof {
        assert(r.deep_view() + split_path_from(p@, i as int) =~~= r.deep_view());
    }
    r
}

/// Parses a file system table: the root's length field gives the node count,
/// the records follow, and the string table runs to the end of the region.
/// Fails exactly when the table violates `fst_wf`, naming the violated
/// expectation.
pub fn parse_fst(data: &Vec<u8>) -> (r: Result<FstHeader, Error>)
    ensures
        r is Ok <==> fst_wf(data@),
        r matches Ok(h) ==> {
            &&& h.wf()
            &&& h.nodes.len() == node_count(data@)
            &&& forall|i: int| 0 <= i < h.nodes.len() ==> node_matches(h.nodes[i], data@, i)
        },
        r matches Err(e) ==> !fst_wf(data@) && (e == Error::DiscFormat(
            DiscFormatReason::FstTruncated,
        ) || e == Error::DiscFormat(DiscFormatReason::FstBadNodeKind) || e == Error::DiscFormat(
            DiscFormatReason::FstBadNameOffset,
        ) || e == Error::DiscFormat(DiscFormatReason::FstBadIndices)),
{
    if data.len() < 12 {
        return Err(Error::DiscFormat(DiscFormatReason::FstTruncated));
    }
    if data[0] != 1 {
        return Err(Error::DiscFormat(DiscFormatReason::FstBadNodeKind));
    }
    let count32 = read_u32_be(data, 8);
    let count = count32 as usize;
    if count < 1 {
        return Err(Error::DiscFormat(DiscFormatReason::FstBadIndices));
    }
    if count > data.len() / 12 {
        assert(12 * node_count(data@) > data.len());
        return Err(Error::DiscFormat(DiscFormatReason::FstTruncated));
    }
    let stab_off = count * 12;
    assert(stab_off <= data.len());
    let ghost st = string_table(data@);
    proof {
        assert(st =~= data@.subrange(stab_off as int, data.len() as int));
    }
    let mut nodes: Vec<Node> = Vec::new();
    let mut i: usize = 0;
    while i < count
        invariant
            i <= count,
            count == node_count(data@),
            count >= 1,
            stab_off == 12 * count,
            stab_off <= data.len(),
            st == string_table(data@),
            st =~= data@.subrange(stab_off as int, data.len() as int),
            data@[0] == 1,
            data.len() >= 12,
            nodes.len() == i,
            forall|i2: int| 0 <= i2 < i ==> node_wf(data@, i2),
            forall|i2: int| 0 <= i2 < i ==> node_matches(nodes[i2], data@, i2),
        decreases count - i,
    {
        let flag = data[i * 12];
        if flag > 1 {
            assert(!node_wf(data@, i as int));
            return Err(Error::DiscFormat(DiscFormatReason::FstBadNodeKind));
        }
        let noff = read_u24_be(data, i * 12 + 1) as usize;
        let offset = read_u32_be(data, i * 12 + 4);
        let length = read_u32_be(data, i * 12 + 8);
        if noff > data.len() - stab_off {
            assert(node_name_off(data@, i as int) > st.len());
            assert(!node_wf(data@, i as int));
            return Err(Error::DiscFormat(DiscFormatReason::FstBadNameOffset));
        }
        let name = copy_until_zero(data, stab_off + noff, data.len());
        proof {
            assert(data@.subrange((stab_off + noff) as int, data.len() as int) =~= st.skip(
                noff as int,
            ));
            crate::util::lemma_first_zero_bounds(st.skip(noff as int));
            assert(name@.len() == first_zero(st.skip(noff as int)));
            assert(name.len() <= data.len() - stab_off - noff);
        }
        if stab_off + noff + name.len() >= data.len() {
            assert(!(first_zero(st.skip(noff as int)) < st.len() - noff));
            assert(!node_wf(data@, i as int));
            return Err(Error::DiscFormat(DiscFormatReason::FstBadNameOffset));
        }
        assert(first_zero(st.skip(noff as int)) < st.len() - noff);
        let kind = if flag == 1 {
            NodeKind::Directory
        } else {
            NodeKind::File
        };
        if flag == 1 {
            if (length as usize) <= i || (length as usize) > count {
                assert(!node_wf(data@, i as int));
                return Err(Error::DiscFormat(DiscFormatReason::FstBadIndices));
            }
        }
        let node = Node { kind, name, offset, length };
        assert(node_wf(data@, i as int));
        assert(node_matches(node, data@, i as int));
        nodes.push(node);
        i = i + 1;
    }
    let h = FstHeader { nodes };
    assert(fst_wf(data@));
    proof {
        assert(node_matches(h.nodes[0], data@, 0));
        assert forall|i2: int|
            0 <= i2 < h.nodes.len() && h.nodes[i2].kind
                == NodeKind::Directory implies i2 < h.nodes[i2].length <= h.nodes.len() by {
            assert(node_matches(h.nodes[i2], data@, i2));
            assert(node_wf(data@, i2));
        }
        assert(h.wf());
    }
    Ok(h)
}

/// A parsed partition header: the reconstructed file system table, stored as
/// an index-addressed arena whose directories hold index ranges.
#[derive(Clone, Debug)]
pub struct FstHeader {
    /// All nodes in table order; index 0 is the root directory.
    pub nodes: Vec<Node>,
}

/// Disc partition header with file system table: the root node and
/// path-addressed lookup over the reconstructed tree.
pub trait PartHeader {
    /// The reconstructed nodes, in table order.
    spec fn nodes_spec(&self) -> Seq<Node>;

    /// The arena invariant: a directory at the root whose end index is the
    /// node count, and every directory's end index past its own index and
    /// within bounds.
    open spec fn tree_wf(&self) -> bool {
        &&& self.nodes_spec().len() >= 1
        &&& self.nodes_spec()[0].kind == NodeKind::Directory
        &&& self.nodes_spec()[0].length == self.nodes_spec().len()
        &&& forall|i: int|
            0 <= i < self.nodes_spec().len() ==> (self.nodes_spec()[i].kind
                == NodeKind::Directory ==> i < self.nodes_spec()[i].length
                <= self.nodes_spec().len())
    }

    /// The root node of the file system.
    fn root_node(&self) -> (r: &Node)
        requires
            self.tree_wf(),
        ensures
            *r == self.nodes_spec()[0],
    ;

    /// Finds a file or directory by path. Separators split the path into
    /// segments, empty segments are skipped, and each segment is matched
    /// case-sensitively against the names of the current directory's direct
    /// children; a file matched before the final segment resolves nothing.
    fn find_node(&self, path: &str) -> (r: Option<&Node>)
        requires
            self.tree_wf(),
        ensures
            match r {
                Some(n) => fst_find(self.nodes_spec(), 0, split_path(path.spec_bytes()))
                    matches Some(i) && 0 <= i < self.nodes_spec().len() && *n
                    == self.nodes_spec()[i],
                None => fst_find(self.nodes_spec(), 0, split_path(path.spec_bytes())) is None,
            },
    ;
}

impl FstHeader {
    /// The arena invariant: a directory at the root whose end index is the
    /// node count, and every directory's end index past its own index and
    /// within bounds.
    pub open spec fn wf(&self) -> bool {
        &&& self.nodes.len() >= 1
        &&& self.nodes[0].kind == NodeKind::Directory
        &&& self.nodes[0].length == self.nodes.len()
        &&& forall|i: int|
            0 <= i < self.nodes.len() ==> (self.nodes[i].kind == NodeKind::Directory ==> i
                < self.nodes[i].length <= self.nodes.len())
    }

}

impl PartHeader for FstHeader {
    open spec fn nodes_spec(&self) -> Seq<Node> {
        self.nodes@
    }

    fn root_node(&self) -> (r: &Node) {
        &self.nodes[0]
    }

    fn find_node(&self, path: &str) -> (r: Option<&Node>) {
        let pv = vstd::slice::slice_to_vec(path.as_bytes());
        let segs = split_segments(&pv);
        let ghost all = split_path(path.spec_bytes());
        let mut d: usize = 0;
        let mut s: usize = 0;
        proof {
            assert(segs.deep_view().skip(0) =~~= all);
        }
        while s < segs.len()
            invariant
                self.wf(),
                s <= segs.len(),
                segs.deep_view().len() == segs.len(),
                0 <= d < self.nodes.len(),
                self.nodes[d as int].kind == NodeKind::Directory,
                all == split_path(path.spec_bytes()),
                fst_find(self.nodes@, 0, all) == fst_find(
                    self.nodes@,
                    d as int,
                    segs.deep_view().skip(s as int),
                ),
            decreases segs.len() - s,
        {
            let ghost rest = segs.deep_view().skip(s as int);
            proof {
                assert(rest.len() == segs.len() - s);
                assert(rest[0] == segs.deep_view()[s as int]);
            }
            let end = self.nodes[d].length as usize;
            assert(end <= self.nodes.len());
            let ghost seg = segs.deep_view()[s as int];
            proof {
                assert(seg =~= segs@[s as int]@);
            }
            let mut j = d + 1;
            let mut have: bool = false;
            let mut found: usize = 0;
            while j < end && !have
                invariant
                    self.wf(),
                    d < self.nodes.len(),
                    d < j,
                    s < segs.len(),
                    segs.deep_view().len() == segs.len(),
                    seg == segs@[s as int]@,
                    end == self.nodes[d as int].length,
                    end <= self.nodes.len(),
                    have ==> (d < found < end && find_child(self.nodes@, d + 1, end as int, seg)
                        == Some(found as int)),
                    !have ==> find_child(self.nodes@, d + 1, end as int, seg) == find_child(
                        self.nodes@,
                        j as int,
                        end as int,
                        seg,
                    ),
                decreases (if j < end { end - j } else { 0int }), (if have { 0int } else { 1int }),
            {
                if bytes_eq(&self.nodes[j].name, &segs[s]) {
                    assert(find_child(self.nodes@, j as int, end as int, seg) == Some(j as int));
                    found = j;
                    have = true;
                } else {
                    let n = &self.nodes[j];
                    let next = if matches!(n.kind, NodeKind::Directory) {
                        n.length as usize
                    } else {
                        j + 1
                    };
                    assert(next == next_sibling(self.nodes@, j as int));
                    proof {
                        if next >= end {
                            assert(find_child(self.nodes@, end as int, end as int, seg) is None);
                            assert(find_child(self.nodes@, next as int, end as int, seg) is None);
                        }
                    }
                    j = next;
                }
            }
            if !have {
                assert(find_child(self.nodes@, d + 1, end as int, seg) is None);
                assert(fst_find(self.nodes@, d as int, rest) is None);
                return None;
            }
            let c = found;
            if s == segs.len() - 1 {
                proof {
                    assert(rest.len() == 1);
                    assert(fst_find(self.nodes@, d as int, rest) == Some(c as int));
                }
                return Some(&self.nodes[c]);
            }
            if matches!(self.nodes[c].kind, NodeKind::File) {
                proof {
                    assert(rest.len() > 1);
                    assert(fst_find(self.nodes@, d as int, rest) is None);
                }
                return None;
            }
            proof {
                assert(rest.len() > 1);
                assert(fst_find(self.nodes@, d as int, rest) == fst_find(
                    self.nodes@,
                    c as int,
                    rest.drop_first(),
                ));
                assert(rest.drop_first() =~~= segs.deep_view().skip(s + 1));
            }
            d = c;
            s = s + 1;
        }
        proof {
            assert(segs.deep_view().skip(s as int) =~~= Seq::<Seq<u8>>::empty());
            assert(fst_find(self.nodes@, 0, all) == Some(d as int));
        }
        Some(&self.nodes[d])
    }
}

} // verus!
