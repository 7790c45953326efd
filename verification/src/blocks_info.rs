use crate::bytes::{
    be_i32_at, be_i64_at, be_u16_at, be_u32_at, find_nul, nul_index, read_be_i32, read_be_i64,
    read_be_u16, read_be_u32, tail_from,
};
use crate::codec::{decoded, decompress};
use crate::error::BundleError;
use crate::header::{UnityAssetBundleHeader, UnityContainerHeader};
use crate::text::{read_text, text_of};
use vstd::prelude::*;
use vstd::slice::slice_subrange;

verus! {

/// One independently compressed piece of the payload.
#[derive(Clone, Copy, Debug, Default, PartialEq, Eq, PartialOrd, Ord)]
pub struct UnityStorageBlock {
    pub compressed_size: u32,
    pub uncompressed_size: u32,
    pub flags: u16,
}

/// One entry of the directory: a member file's place, size and name.
#[derive(Debug, Default, PartialEq, Eq, PartialOrd, Ord)]
pub struct UnityNode {
    pub offset: i64,
    pub size: i64,
    pub flags: u32,
    pub path: String,
}

/// What a `UnityNode` holds, as mathematical values.
pub struct NodeView {
    pub offset: i64,
    pub size: i64,
    pub flags: u32,
    pub path: Seq<char>,
}

impl View for UnityNode {
    type V = NodeView;

    open spec fn view(&self) -> NodeView {
        NodeView { offset: self.offset, size: self.size, flags: self.flags, path: self.path@ }
    }
}

/// The views of a sequence of nodes, in order.
pub open spec fn nodes_view(nodes: Seq<UnityNode>) -> Seq<NodeView> {
    Seq::new(nodes.len(), |i: int| nodes[i]@)
}

/// The number of bytes of one storage-block record.
pub const STORAGE_BLOCK_LEN: usize = 10;

/// The number of bytes of a node record before its path.
pub const NODE_FIXED_LEN: usize = 20;

/// The number of opaque hash bytes that open the blocks-info table.
pub const HASH_LEN: usize = 16;

/// The flag bit that puts the blocks-info table at the end of the archive.
pub const BLOCKS_INFO_AT_END: u32 = 0x80;

/// The first format version whose layout is not decoded.
pub const FIRST_UNSUPPORTED_VERSION: u32 = 7;

/// The storage-block record spelled by the first ten bytes of `s`:
/// uncompressed size, compressed size, flags, in that order on the wire.
pub open spec fn storage_block_at(s: Seq<u8>) -> UnityStorageBlock {
    UnityStorageBlock {
        uncompressed_size: be_u32_at(s),
        compressed_size: be_u32_at(s.skip(4)),
        flags: be_u16_at(s.skip(8)),
    }
}

/// The storage-block record at the front of `s`, if `s` is long enough.
pub open spec fn storage_block_of(s: Seq<u8>) -> Option<UnityStorageBlock> {
    if s.len() < STORAGE_BLOCK_LEN {
        None
    } else {
        Some(storage_block_at(s))
    }
}

/// `count` storage-block records laid end to end at the front of `s`.
pub open spec fn storage_blocks_of(s: Seq<u8>, count: nat) -> Option<Seq<UnityStorageBlock>> {
    if s.len() < STORAGE_BLOCK_LEN * count {
        None
    } else {
        Some(Seq::new(count, |k: int| storage_block_at(s.skip(STORAGE_BLOCK_LEN * k))))
    }
}

/// The node record at the front of `s` and the number of bytes it occupies:
/// offset, size, flags, and a NUL-terminated path that must be text.
pub open spec fn node_of(s: Seq<u8>) -> Option<(NodeView, int)> {
    let path_end = nul_index(s, NODE_FIXED_LEN as int);
    if s.len() < NODE_FIXED_LEN || path_end >= s.len() {
        None
    } else {
        match text_of(s.subrange(NODE_FIXED_LEN as int, path_end)) {
            Some(path) => Some(
                (
                    NodeView {
                        offset: be_i64_at(s),
                        size: be_i64_at(s.skip(8)),
                        flags: be_u32_at(s.skip(16)),
                        path,
                    },
                    path_end + 1,
                ),
            ),
            None => None,
        }
    }
}

/// `count` node records laid end to end at the front of `s`, and the number
/// of bytes they occupy together.
pub open spec fn nodes_of(s: Seq<u8>, count: nat) -> Option<(Seq<NodeView>, int)>
    decreases count,
{
    if count == 0 {
        Some((Seq::empty(), 0))
    } else {
        match nodes_of(s, (count - 1) as nat) {
            Some((nodes, used)) => match node_of(s.skip(used)) {
                Some((node, len)) => Some((nodes.push(node), used + len)),
                None => None,
            },
            None => None,
        }
    }
}

/// The tables that the decompressed blocks-info bytes `s` hold, and the
/// number of bytes they occupy: sixteen hash bytes, a signed count and that
/// many storage blocks, a signed count and that many nodes.
pub open spec fn block_infos_of(s: Seq<u8>) -> Option<
    (Seq<UnityStorageBlock>, Seq<NodeView>, int),
> {
    let block_count = be_i32_at(s.skip(HASH_LEN as int));
    let blocks_at = HASH_LEN + 4;
    let blocks_end = blocks_at + STORAGE_BLOCK_LEN * block_count;
    let node_count = be_i32_at(s.skip(blocks_end));
    let nodes_at = blocks_end + 4;
    if s.len() < blocks_at || block_count < 0 {
        None
    } else if s.len() < nodes_at || node_count < 0 {
        None
    } else {
        match (
            storage_blocks_of(s.skip(blocks_at), block_count as nat),
            nodes_of(s.skip(nodes_at), node_count as nat),
        ) {
            (Some(blocks), Some((nodes, used))) => Some((blocks, nodes, nodes_at + used)),
            _ => None,
        }
    }
}

/// Once the records run out, asking for more of them does not help.
pub proof fn lemma_nodes_of_none(s: Seq<u8>, few: nat, many: nat)
    requires
        few <= many,
        nodes_of(s, few) is None,
    ensures
        nodes_of(s, many) is None,
    decreases many,
{
    if few < many {
        lemma_nodes_of_none(s, few, (many - 1) as nat);
    }
}

/// Reads one storage-block record from the front of `input`.
pub fn read_storage_block<'a>(input: &'a [u8]) -> (r: Result<
    (&'a [u8], UnityStorageBlock),
    BundleError,
>)
    ensures
        match r {
            Ok((rest, block)) => storage_block_of(input@) == Some(block) && rest@ == input@.skip(
                STORAGE_BLOCK_LEN as int,
            ),
            Err(e) => e == BundleError::TruncatedBlocksInfo && storage_block_of(input@) is None,
        },
{
    if input.len() < STORAGE_BLOCK_LEN {
        return Err(BundleError::TruncatedBlocksInfo);
    }
    let uncompressed_size: u32 = read_be_u32(input, 0);
    let compressed_size: u32 = read_be_u32(input, 4);
    let flags: u16 = read_be_u16(input, 8);
    assert(input@.skip(0) == input@);
    let rest = tail_from(input, STORAGE_BLOCK_LEN);
    Ok((rest, UnityStorageBlock { compressed_size, uncompressed_size, flags }))
}

/// Reads one node record from the front of `input`.
pub fn read_node<'a>(input: &'a [u8]) -> (r: Result<(&'a [u8], UnityNode), BundleError>)
    ensures
        match r {
            Ok((rest, node)) => node_of(input@) == Some((node@, input@.len() - rest@.len()))
                && rest@.len() < input@.len() && rest@ == input@.skip(
                input@.len() - rest@.len(),
            ),
            Err(e) => e == BundleError::TruncatedBlocksInfo && node_of(input@) is None,
        },
{
    let len: usize = input.len();
    if len < NODE_FIXED_LEN {
        return Err(BundleError::TruncatedBlocksInfo);
    }
    let offset: i64 = read_be_i64(input, 0);
    let size: i64 = read_be_i64(input, 8);
    let flags: u32 = read_be_u32(input, 16);
    assert(input@.skip(0) == input@);
    let path_end: usize = find_nul(input, NODE_FIXED_LEN);
    if path_end >= len {
        return Err(BundleError::TruncatedBlocksInfo);
    }
    let path = match read_text(slice_subrange(input, NODE_FIXED_LEN, path_end)) {
        Some(t) => t,
        None => { return Err(BundleError::TruncatedBlocksInfo); },
    };
    let rest = tail_from(input, path_end + 1);
    Ok((rest, UnityNode { offset, size, flags, path }))
}

/// Reads `count` storage-block records from the front of `input`.
pub fn read_storage_blocks<'a>(input: &'a [u8], count: usize) -> (r: Result<
    (&'a [u8], Vec<UnityStorageBlock>),
    BundleError,
>)
    ensures
        match r {
            Ok((rest, blocks)) => storage_blocks_of(input@, count as nat) == Some(blocks@)
                && rest@ == input@.skip(STORAGE_BLOCK_LEN * count),
            Err(e) => e == BundleError::TruncatedBlocksInfo && storage_blocks_of(
                input@,
                count as nat,
            ) is None,
        },
{
    if input.len() / STORAGE_BLOCK_LEN < count {
        return Err(BundleError::TruncatedBlocksInfo);
    }
    let mut cur: &[u8] = input;
    let mut blocks: Vec<UnityStorageBlock> = Vec::new();
    let mut i: usize = 0;
    assert(input@.skip(0) == input@);
    while i < count
        invariant
            i <= count,
            STORAGE_BLOCK_LEN * count <= input@.len(),
            cur@ == input@.skip(STORAGE_BLOCK_LEN * i),
            blocks@ == Seq::new(
                i as nat,
                |k: int| storage_block_at(input@.skip(STORAGE_BLOCK_LEN * k)),
            ),
        decreases count - i,
    {
        match read_storage_block(cur) {
            Ok((rest, block)) => {
                assert(input@.skip(STORAGE_BLOCK_LEN * i).skip(STORAGE_BLOCK_LEN as int)
                    =~= input@.skip(STORAGE_BLOCK_LEN * (i + 1)));
                cur = rest;
                blocks.push(block);
            },
            Err(e) => {
                return Err(e);
            },
        }
        i = i + 1;
    }
    Ok((cur, blocks))
}

/// Reads `count` node records from the front of `input`.
pub fn read_nodes<'a>(input: &'a [u8], count: usize) -> (r: Result<
    (&'a [u8], Vec<UnityNode>),
    BundleError,
>)
    ensures
        match r {
            Ok((rest, nodes)) => nodes_of(input@, count as nat) == Some(
                (nodes_view(nodes@), input@.len() - rest@.len()),
            ) && rest@.len() <= input@.len() && rest@ == input@.skip(
                input@.len() - rest@.len(),
            ),
            Err(e) => e == BundleError::TruncatedBlocksInfo && nodes_of(input@, count as nat)
                is None,
        },
{
    let mut cur: &[u8] = input;
    let mut nodes: Vec<UnityNode> = Vec::new();
    let mut j: usize = 0;
    assert(input@.skip(0) == input@);
    assert(nodes_view(nodes@) == Seq::<NodeView>::empty());
    while j < count
        invariant
            j <= count,
            cur@.len() <= input@.len(),
            cur@ == input@.skip(input@.len() - cur@.len()),
            nodes_of(input@, j as nat) == Some((nodes_view(nodes@), input@.len() - cur@.len())),
        decreases count - j,
    {
        match read_node(cur) {
            Ok((rest, node)) => {
                proof {
                    let before = input@.len() - cur@.len();
                    let taken = cur@.len() - rest@.len();
                    assert(0 < taken <= cur@.len());
                    assert(input@.skip(before).skip(taken) =~= input@.skip(before + taken));
                    assert(nodes_view(nodes@.push(node)) == nodes_view(nodes@).push(node@));
                }
                cur = rest;
                nodes.push(node);
            },
            Err(e) => {
                proof {
                    lemma_nodes_of_none(input@, (j + 1) as nat, count as nat);
                }
                return Err(e);
            },
        }
        j = j + 1;
    }
    Ok((cur, nodes))
}

/// Reads the tables out of the decompressed blocks-info bytes and returns
/// them with the bytes that follow them.
pub fn read_block_infos<'a>(block_info: &'a [u8]) -> (r: Result<
    (&'a [u8], (Vec<UnityStorageBlock>, Vec<UnityNode>)),
    BundleError,
>)
    ensures
        match r {
            Ok((rest, (blocks, nodes))) => block_infos_of(block_info@) == Some(
                (blocks@, nodes_view(nodes@), block_info@.len() - rest@.len()),
            ) && rest@ == block_info@.skip(block_info@.len() - rest@.len()),
            Err(e) => e == BundleError::TruncatedBlocksInfo && block_infos_of(block_info@)
                is None,
        },
{
    let blocks_at: usize = HASH_LEN + 4;
    if block_info.len() < blocks_at {
        return Err(BundleError::TruncatedBlocksInfo);
    }
    let block_count: i32 = read_be_i32(block_info, HASH_LEN);
    if block_count < 0 {
        return Err(BundleError::TruncatedBlocksInfo);
    }
    let records: &[u8] = tail_from(block_info, blocks_at);
    let (after_blocks, storage_blocks) = match read_storage_blocks(records, block_count as usize) {
        Ok(found) => found,
        Err(e) => { return Err(e); },
    };
    if after_blocks.len() < 4 {
        return Err(BundleError::TruncatedBlocksInfo);
    }
    let ghost blocks_end = blocks_at + STORAGE_BLOCK_LEN * block_count;
    proof {
        assert(block_info@.skip(blocks_at as int).skip(STORAGE_BLOCK_LEN * block_count)
            =~= block_info@.skip(blocks_end));
        assert(after_blocks@.skip(0) == after_blocks@);
    }
    let node_count: i32 = read_be_i32(after_blocks, 0);
    if node_count < 0 {
        return Err(BundleError::TruncatedBlocksInfo);
    }
    let entries: &[u8] = tail_from(after_blocks, 4);
    proof {
        assert(block_info@.skip(blocks_end).skip(4) =~= block_info@.skip(blocks_end + 4));
    }
    match read_nodes(entries, node_count as usize) {
        Ok((rest, nodes)) => {
            proof {
                let used = entries@.len() - rest@.len();
                assert(block_info@.skip(blocks_end + 4).skip(used) =~= block_info@.skip(
                    blocks_end + 4 + used,
                ));
            }
            Ok((rest, (storage_blocks, nodes)))
        },
        Err(e) => Err(e),
    }
}

/// Where the compressed blocks-info table lies in `rest`, the bytes that
/// follow the container header: at the very end of the archive when the
/// flag says so, right at the front otherwise. Gives the table's bytes and
/// how far it moves the read position.
pub open spec fn blocks_info_region(rest: Seq<u8>, container: UnityContainerHeader) -> Option<
    (Seq<u8>, int),
> {
    let size = container.compressed_blocks_info_size as int;
    if size > rest.len() {
        None
    } else if container.flags & BLOCKS_INFO_AT_END != 0 {
        Some((rest.skip(rest.len() - size), 0))
    } else {
        Some((rest.take(size), size))
    }
}

/// A table placed at the end is the last bytes of the whole archive, and
/// finding it does not move the read position; a table placed at the front
/// is the first bytes after the container header.
pub proof fn lemma_blocks_info_region(archive: Seq<u8>, at: int, container: UnityContainerHeader)
    requires
        0 <= at <= archive.len(),
        container.compressed_blocks_info_size <= archive.len() - at,
    ensures
        blocks_info_region(archive.skip(at), container) matches Some((table, used)) && (
        if container.flags & BLOCKS_INFO_AT_END != 0 {
            used == 0 && table == archive.skip(
                archive.len() - container.compressed_blocks_info_size,
            )
        } else {
            used == container.compressed_blocks_info_size && table == archive.subrange(
                at,
                at + container.compressed_blocks_info_size,
            )
        }),
{
    let rest = archive.skip(at);
    let size = container.compressed_blocks_info_size as int;
    assert(rest.skip(rest.len() - size) =~= archive.skip(archive.len() - size));
    assert(rest.take(size) =~= archive.subrange(at, at + size));
}

/// The storage-block and directory tables of an archive whose bytes after
/// the container header are `rest`, and how far reading them moves the read
/// position.
pub open spec fn blocks_info_of(
    rest: Seq<u8>,
    version: u32,
    container: UnityContainerHeader,
) -> Result<(Seq<UnityStorageBlock>, Seq<NodeView>, int), BundleError> {
    if version >= FIRST_UNSUPPORTED_VERSION {
        Err(BundleError::UnsupportedFormatVersion)
    } else {
        match blocks_info_region(rest, container) {
            None => Err(BundleError::TruncatedBlocksInfo),
            Some((compressed, used)) => match decoded(
                compressed,
                container.uncompressed_blocks_info_size as usize,
                container.flags,
            ) {
                Err(e) => Err(e),
                Ok(info) => match block_infos_of(info) {
                    None => Err(BundleError::TruncatedBlocksInfo),
                    Some((blocks, nodes, _)) => Ok((blocks, nodes, used)),
                },
            },
        }
    }
}

/// Finds the blocks-info table, expands it and reads its two tables. The
/// two headers are handed back untouched, with the bytes at which the
/// storage blocks begin.
pub fn read_blocks_info_and_directory<'a>(
    input: &'a [u8],
    header: UnityAssetBundleHeader,
    container_header: UnityContainerHeader,
) -> (r: Result<
    (
        &'a [u8],
        ((UnityAssetBundleHeader, UnityContainerHeader), (Vec<UnityStorageBlock>, Vec<UnityNode>)),
    ),
    BundleError,
>)
    ensures
        match r {
            Ok((rest, ((h, c), (blocks, nodes)))) => h == header && c == container_header
                && blocks_info_of(input@, header.version, container_header) == Ok::<
                (Seq<UnityStorageBlock>, Seq<NodeView>, int),
                BundleError,
            >((blocks@, nodes_view(nodes@), input@.len() - rest@.len())) && rest@ == input@.skip(
                input@.len() - rest@.len(),
            ),
            Err(e) => blocks_info_of(input@, header.version, container_header) == Err::<
                (Seq<UnityStorageBlock>, Seq<NodeView>, int),
                BundleError,
            >(e),
        },
{
    if header.version >= FIRST_UNSUPPORTED_VERSION {
        return Err(BundleError::UnsupportedFormatVersion);
    }
    let len: usize = input.len();
    let size: usize = container_header.compressed_blocks_info_size as usize;
    if size > len {
        return Err(BundleError::TruncatedBlocksInfo);
    }
    let at_end: bool = container_header.flags & BLOCKS_INFO_AT_END != 0;
    let compressed: &[u8] = if at_end {
        slice_subrange(input, len - size, len)
    } else {
        slice_subrange(input, 0, size)
    };
    let rest: &[u8] = if at_end {
        tail_from(input, 0)
    } else {
        tail_from(input, size)
    };
    let block_info: Vec<u8> = match decompress(
        compressed,
        container_header.uncompressed_blocks_info_size as usize,
        container_header.flags,
    ) {
        Ok(bytes) => bytes,
        Err(e) => { return Err(e); },
    };
    match read_block_infos(block_info.as_slice()) {
        Ok((_, (storage_blocks, nodes))) => Ok(
            (rest, ((header, container_header), (storage_blocks, nodes))),
        ),
        Err(e) => Err(e),
    }
}

} // verus!
