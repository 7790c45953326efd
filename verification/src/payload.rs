use crate::blocks_info::{nodes_view, NodeView, UnityNode, UnityStorageBlock};
use crate::bytes::tail_from;
use crate::codec::{decoded, decompress, MAX_EXPANSION};
use crate::error::BundleError;
use vstd::prelude::*;
use vstd::slice::{slice_subrange, slice_to_vec};

verus! {

/// One member file cut out of the payload.
#[derive(Debug, Default, PartialEq, Eq, PartialOrd, Ord)]
pub struct UnityStreamFile {
    pub path: String,
    pub file_name: String,
    pub body: Vec<u8>,
}

/// What a `UnityStreamFile` holds, as mathematical values.
pub struct FileView {
    pub path: Seq<char>,
    pub file_name: Seq<char>,
    pub body: Seq<u8>,
}

impl View for UnityStreamFile {
    type V = FileView;

    open spec fn view(&self) -> FileView {
        FileView { path: self.path@, file_name: self.file_name@, body: self.body@ }
    }
}

/// The views of a sequence of files, in order.
pub open spec fn files_view(files: Seq<UnityStreamFile>) -> Seq<FileView> {
    Seq::new(files.len(), |i: int| files[i]@)
}

/// The sum of the sizes that the first `count` storage blocks declare for
/// their expanded form.
pub open spec fn declared_len(blocks: Seq<UnityStorageBlock>, count: nat) -> nat
    decreases count,
{
    if count == 0 {
        0
    } else {
        declared_len(blocks, (count - 1) as nat) + blocks[count - 1].uncompressed_size as nat
    }
}

/// The payload that the first `count` storage blocks expand to, and the
/// number of bytes of `data` they occupy. The blocks lie end to end in
/// `data`; each is expanded by its own codec and must come out at the size it
/// declares; the outputs are joined in order. The first block that fails
/// decides the error.
pub open spec fn payload_upto(data: Seq<u8>, blocks: Seq<UnityStorageBlock>, count: nat) -> Result<
    (Seq<u8>, int),
    BundleError,
>
    decreases count,
{
    if count == 0 {
        Ok((Seq::empty(), 0))
    } else {
        match payload_upto(data, blocks, (count - 1) as nat) {
            Err(e) => Err(e),
            Ok((payload, used)) => {
                let block = blocks[count - 1];
                if block.compressed_size > data.len() - used {
                    Err(BundleError::TruncatedPayload)
                } else {
                    match decoded(
                        data.subrange(used, used + block.compressed_size),
                        block.uncompressed_size as usize,
                        block.flags as u32,
                    ) {
                        Err(e) => Err(e),
                        Ok(out) => if out.len() != block.uncompressed_size {
                            Err(BundleError::SizeMismatch)
                        } else {
                            Ok((payload + out, used + block.compressed_size))
                        },
                    }
                }
            },
        }
    }
}

/// The payload of all the storage blocks.
pub open spec fn payload_of(data: Seq<u8>, blocks: Seq<UnityStorageBlock>) -> Result<
    (Seq<u8>, int),
    BundleError,
> {
    payload_upto(data, blocks, blocks.len())
}

/// The files that the first `count` directory nodes cut out of `payload`,
/// and the number of bytes they take together. Each node takes `size` bytes
/// where the one before it stopped; its `offset` plays no part.
pub open spec fn stream_files_upto(payload: Seq<u8>, nodes: Seq<NodeView>, count: nat) -> Option<
    (Seq<FileView>, int),
>
    decreases count,
{
    if count == 0 {
        Some((Seq::empty(), 0))
    } else {
        match stream_files_upto(payload, nodes, (count - 1) as nat) {
            None => None,
            Some((files, used)) => {
                let node = nodes[count - 1];
                if node.size < 0 || node.size > payload.len() - used {
                    None
                } else {
                    Some(
                        (
                            files.push(
                                FileView {
                                    path: node.path,
                                    file_name: node.path,
                                    body: payload.subrange(used, used + node.size),
                                },
                            ),
                            used + node.size,
                        ),
                    )
                }
            },
        }
    }
}

/// The files of all the directory nodes.
pub open spec fn stream_files_of(payload: Seq<u8>, nodes: Seq<NodeView>) -> Option<
    (Seq<FileView>, int),
> {
    stream_files_upto(payload, nodes, nodes.len())
}

/// A block that fails makes every longer run of blocks fail the same way.
pub proof fn lemma_payload_error_stays(
    data: Seq<u8>,
    blocks: Seq<UnityStorageBlock>,
    few: nat,
    many: nat,
)
    requires
        few <= many,
        payload_upto(data, blocks, few) is Err,
    ensures
        payload_upto(data, blocks, many) == payload_upto(data, blocks, few),
    decreases many,
{
    if few < many {
        lemma_payload_error_stays(data, blocks, few, (many - 1) as nat);
    }
}

/// A node that cannot be served makes every longer run of nodes fail.
pub proof fn lemma_stream_files_none_stays(
    payload: Seq<u8>,
    nodes: Seq<NodeView>,
    few: nat,
    many: nat,
)
    requires
        few <= many,
        stream_files_upto(payload, nodes, few) is None,
    ensures
        stream_files_upto(payload, nodes, many) is None,
    decreases many,
{
    if few < many {
        lemma_stream_files_none_stays(payload, nodes, few, (many - 1) as nat);
    }
}

/// The payload is as long as its blocks declare, and it never takes more of
/// the data than there is.
pub proof fn lemma_payload_len(data: Seq<u8>, blocks: Seq<UnityStorageBlock>, count: nat)
    requires
        payload_upto(data, blocks, count) is Ok,
    ensures
        payload_upto(data, blocks, count)->Ok_0.0.len() == declared_len(blocks, count),
        0 <= payload_upto(data, blocks, count)->Ok_0.1 <= data.len(),
    decreases count,
{
    if count > 0 {
        lemma_payload_len(data, blocks, (count - 1) as nat);
    }
}

/// The declared sizes only add up.
pub proof fn lemma_declared_len_grows(blocks: Seq<UnityStorageBlock>, few: nat, many: nat)
    requires
        few <= many,
    ensures
        declared_len(blocks, few) <= declared_len(blocks, many),
    decreases many,
{
    if few < many {
        lemma_declared_len_grows(blocks, few, (many - 1) as nat);
    }
}

/// Adds up the sizes that the storage blocks declare for their expanded
/// form. `None` when the sum does not fit in `usize`.
pub fn declared_payload_len(storage_blocks: &Vec<UnityStorageBlock>) -> (total: Option<usize>)
    ensures
        match total {
            Some(n) => n == declared_len(storage_blocks@, storage_blocks@.len()),
            None => declared_len(storage_blocks@, storage_blocks@.len()) > usize::MAX,
        },
{
    let count: usize = storage_blocks.len();
    let mut total: usize = 0;
    let mut i: usize = 0;
    while i < count
        invariant
            i <= count,
            count == storage_blocks@.len(),
            total == declared_len(storage_blocks@, i as nat),
        decreases count - i,
    {
        match total.checked_add(storage_blocks[i].uncompressed_size as usize) {
            Some(sum) => {
                total = sum;
            },
            None => {
                proof {
                    lemma_declared_len_grows(storage_blocks@, (i + 1) as nat, count as nat);
                }
                return None;
            },
        }
        i = i + 1;
    }
    Some(total)
}

/// Expands the storage blocks that lie end to end at the front of `input`
/// and joins their outputs into one payload. The blocks are handed back
/// untouched, with the bytes that follow the last of them.
pub fn decompress_by_storage_blocks<'a>(
    input: &'a [u8],
    storage_blocks: Vec<UnityStorageBlock>,
) -> (r: Result<(&'a [u8], (Vec<u8>, Vec<UnityStorageBlock>)), BundleError>)
    ensures
        match r {
            Ok((rest, (payload, blocks))) => blocks == storage_blocks && payload_of(
                input@,
                storage_blocks@,
            ) == Ok::<(Seq<u8>, int), BundleError>((payload@, input@.len() - rest@.len()))
                && rest@.len() <= input@.len() && rest@ == input@.skip(
                input@.len() - rest@.len(),
            ) && payload@.len() == declared_len(storage_blocks@, storage_blocks@.len()),
            Err(e) => payload_of(input@, storage_blocks@) == Err::<(Seq<u8>, int), BundleError>(
                e,
            ),
        },
{
    let count: usize = storage_blocks.len();
    let mut cur: &[u8] = input;
    let mut payload: Vec<u8> = Vec::new();
    // Room for the whole payload is set aside at once, as far as the
    // declared sizes can be believed and the allocator agrees.
    match declared_payload_len(&storage_blocks) {
        Some(total) => {
            let room: usize = match input.len().checked_mul(MAX_EXPANSION) {
                Some(most) => if total < most {
                    total
                } else {
                    most
                },
                None => total,
            };
            match payload.try_reserve(room) {
                Ok(_) => {},
                Err(_) => {},
            }
        },
        None => {},
    }
    let mut i: usize = 0;
    assert(input@.skip(0) == input@);
    while i < count
        invariant
            i <= count,
            count == storage_blocks@.len(),
            cur@.len() <= input@.len(),
            cur@ == input@.skip(input@.len() - cur@.len()),
            payload_upto(input@, storage_blocks@, i as nat) == Ok::<(Seq<u8>, int), BundleError>(
                (payload@, input@.len() - cur@.len()),
            ),
        decreases count - i,
    {
        let block: UnityStorageBlock = storage_blocks[i];
        let ghost used = input@.len() - cur@.len();
        if block.compressed_size as u64 > cur.len() as u64 {
            proof {
                lemma_payload_error_stays(input@, storage_blocks@, (i + 1) as nat, count as nat);
            }
            return Err(BundleError::TruncatedPayload);
        }
        let size: usize = block.compressed_size as usize;
        let compressed: &[u8] = slice_subrange(cur, 0, size);
        let rest: &[u8] = tail_from(cur, size);
        proof {
            assert(input@.skip(used).subrange(0, size as int) =~= input@.subrange(
                used,
                used + size,
            ));
            assert(input@.skip(used).skip(size as int) =~= input@.skip(used + size));
        }
        let mut out: Vec<u8> = match decompress(
            compressed,
            block.uncompressed_size as usize,
            block.flags as u32,
        ) {
            Ok(bytes) => bytes,
            Err(e) => {
                proof {
                    lemma_payload_error_stays(
                        input@,
                        storage_blocks@,
                        (i + 1) as nat,
                        count as nat,
                    );
                }
                return Err(e);
            },
        };
        if out.len() as u64 != block.uncompressed_size as u64 {
            proof {
                lemma_payload_error_stays(input@, storage_blocks@, (i + 1) as nat, count as nat);
            }
            return Err(BundleError::SizeMismatch);
        }
        payload.append(&mut out);
        cur = rest;
        i = i + 1;
    }
    proof {
        lemma_payload_len(input@, storage_blocks@, count as nat);
    }
    Ok((cur, (payload, storage_blocks)))
}

/// The sum of the lengths of the bodies of `files`.
pub open spec fn total_body_len(files: Seq<FileView>) -> nat
    decreases files.len(),
{
    if files.len() == 0 {
        0
    } else {
        total_body_len(files.drop_last()) + files.last().body.len()
    }
}

/// The bodies of `files` joined in order.
pub open spec fn joined_bodies(files: Seq<FileView>) -> Seq<u8>
    decreases files.len(),
{
    if files.len() == 0 {
        Seq::empty()
    } else {
        joined_bodies(files.drop_last()) + files.last().body
    }
}

/// Where the first `count` nodes end if each starts where its `offset` says.
pub open spec fn end_of(nodes: Seq<NodeView>, count: int) -> int {
    if count <= 0 {
        0
    } else {
        nodes[count - 1].offset + nodes[count - 1].size
    }
}

/// Whether the nodes tile a payload of `payload_len` bytes: no size is
/// negative, the first node starts at 0, each other node starts where the
/// one before it ends, and the last one ends where the payload ends.
pub open spec fn nodes_contiguous(nodes: Seq<NodeView>, payload_len: int) -> bool {
    &&& forall|i: int|
        0 <= i < nodes.len() ==> (#[trigger] nodes[i]).size >= 0 && nodes[i].offset == end_of(
            nodes,
            i,
        )
    &&& end_of(nodes, nodes.len() as int) == payload_len
}

/// What cutting gives: one file per node, named after it and as long as it
/// asks; the bodies are consecutive pieces of the payload, so that joined
/// they are the part of the payload that was taken, and their lengths add up
/// to its length.
pub proof fn lemma_stream_files(payload: Seq<u8>, nodes: Seq<NodeView>, count: nat)
    requires
        stream_files_upto(payload, nodes, count) is Some,
    ensures
        stream_files_upto(payload, nodes, count) matches Some((files, used)) ==> {
            &&& files.len() == count
            &&& 0 <= used <= payload.len()
            &&& total_body_len(files) == used
            &&& joined_bodies(files) == payload.take(used)
            &&& forall|i: int|
                0 <= i < count ==> (#[trigger] files[i]).path == nodes[i].path
                    && files[i].file_name == nodes[i].path && files[i].body.len()
                    == nodes[i].size
        },
    decreases count,
{
    if count == 0 {
        assert(payload.take(0) =~= Seq::<u8>::empty());
    } else {
        lemma_stream_files(payload, nodes, (count - 1) as nat);
        let (before, taken) = stream_files_upto(payload, nodes, (count - 1) as nat)->Some_0;
        let (files, used) = stream_files_upto(payload, nodes, count)->Some_0;
        assert(files.drop_last() =~= before);
        assert(payload.take(taken) + payload.subrange(taken, used) =~= payload.take(used));
    }
}

/// In a tiling directory no node ends after a later one.
pub proof fn lemma_end_of_grows(nodes: Seq<NodeView>, payload_len: int, few: int, many: int)
    requires
        nodes_contiguous(nodes, payload_len),
        0 <= few <= many <= nodes.len(),
    ensures
        0 <= end_of(nodes, few) <= end_of(nodes, many),
    decreases many,
{
    if many > 0 {
        let fewer = if few < many {
            few
        } else {
            many - 1
        };
        lemma_end_of_grows(nodes, payload_len, fewer, many - 1);
        assert(nodes[many - 1].size >= 0);
    }
}

/// In a tiling directory every node gets the bytes at its `offset`.
pub proof fn lemma_contiguous_upto(payload: Seq<u8>, nodes: Seq<NodeView>, count: nat)
    requires
        nodes_contiguous(nodes, payload.len() as int),
        count <= nodes.len(),
    ensures
        stream_files_upto(payload, nodes, count) matches Some((files, used)) && used == end_of(
            nodes,
            count as int,
        ) && files.len() == count && forall|i: int|
            0 <= i < count ==> (#[trigger] files[i]).body == payload.subrange(
                nodes[i].offset as int,
                nodes[i].offset + nodes[i].size,
            ),
    decreases count,
{
    if count > 0 {
        lemma_contiguous_upto(payload, nodes, (count - 1) as nat);
        lemma_end_of_grows(nodes, payload.len() as int, count as int, nodes.len() as int);
        assert(nodes[count - 1].size >= 0);
    }
}

/// When the directory tiles the payload, cutting succeeds, takes the whole
/// payload, gives every node the bytes at its `offset`, and the lengths of
/// the bodies add up to the length of the payload.
pub proof fn lemma_contiguous_nodes_cover_payload(payload: Seq<u8>, nodes: Seq<NodeView>)
    requires
        nodes_contiguous(nodes, payload.len() as int),
    ensures
        stream_files_of(payload, nodes) matches Some((files, used)) && used == payload.len()
            && total_body_len(files) == payload.len() && joined_bodies(files) == payload
            && forall|i: int|
            0 <= i < nodes.len() ==> (#[trigger] files[i]).body == payload.subrange(
                nodes[i].offset as int,
                nodes[i].offset + nodes[i].size,
            ),
{
    lemma_contiguous_upto(payload, nodes, nodes.len());
    lemma_stream_files(payload, nodes, nodes.len());
    assert(payload.take(payload.len() as int) =~= payload);
}

/// Tells whether the directory tiles a payload of `payload_len` bytes.
pub fn directory_is_contiguous(directory_info: &Vec<UnityNode>, payload_len: usize) -> (tiles: bool)
    ensures
        tiles == nodes_contiguous(nodes_view(directory_info@), payload_len as int),
{
    let count: usize = directory_info.len();
    let ghost nodes = nodes_view(directory_info@);
    let mut end: i128 = 0;
    let mut i: usize = 0;
    while i < count
        invariant
            i <= count,
            count == directory_info@.len(),
            nodes == nodes_view(directory_info@),
            end == end_of(nodes, i as int),
            forall|j: int|
                0 <= j < i ==> (#[trigger] nodes[j]).size >= 0 && nodes[j].offset == end_of(
                    nodes,
                    j,
                ),
        decreases count - i,
    {
        let offset: i64 = directory_info[i].offset;
        let size: i64 = directory_info[i].size;
        if size < 0 || offset as i128 != end {
            assert(!(nodes[i as int].size >= 0 && nodes[i as int].offset == end_of(
                nodes,
                i as int,
            )));
            return false;
        }
        end = offset as i128 + size as i128;
        i = i + 1;
    }
    end == payload_len as i128
}

/// Cuts the payload into the member files that the directory describes, one
/// per node, in order. The nodes are handed back untouched, with the bytes of
/// the payload that no node took.
pub fn read_stream_files<'a>(input: &'a [u8], directory_info: Vec<UnityNode>) -> (r: Result<
    (&'a [u8], (Vec<UnityStreamFile>, Vec<UnityNode>)),
    BundleError,
>)
    ensures
        match r {
            Ok((rest, (files, nodes))) => nodes == directory_info && stream_files_of(
                input@,
                nodes_view(directory_info@),
            ) == Some((files_view(files@), input@.len() - rest@.len())) && rest@.len()
                <= input@.len() && rest@ == input@.skip(input@.len() - rest@.len()),
            Err(e) => e == BundleError::TruncatedPayload && stream_files_of(
                input@,
                nodes_view(directory_info@),
            ) is None,
        },
{
    let count: usize = directory_info.len();
    let ghost nodes = nodes_view(directory_info@);
    let mut cur: &[u8] = input;
    let mut files: Vec<UnityStreamFile> = Vec::new();
    let mut i: usize = 0;
    assert(input@.skip(0) == input@);
    assert(files_view(files@) == Seq::<FileView>::empty());
    while i < count
        invariant
            i <= count,
            count == directory_info@.len(),
            nodes == nodes_view(directory_info@),
            cur@.len() <= input@.len(),
            cur@ == input@.skip(input@.len() - cur@.len()),
            stream_files_upto(input@, nodes, i as nat) == Some(
                (files_view(files@), input@.len() - cur@.len()),
            ),
        decreases count - i,
    {
        let ghost used = input@.len() - cur@.len();
        let wanted: i64 = directory_info[i].size;
        if wanted < 0 || wanted as u64 > cur.len() as u64 {
            proof {
                lemma_stream_files_none_stays(input@, nodes, (i + 1) as nat, count as nat);
            }
            return Err(BundleError::TruncatedPayload);
        }
        let size: usize = wanted as usize;
        let body: Vec<u8> = slice_to_vec(slice_subrange(cur, 0, size));
        let rest: &[u8] = tail_from(cur, size);
        let file = UnityStreamFile {
            path: directory_info[i].path.clone(),
            file_name: directory_info[i].path.clone(),
            body,
        };
        proof {
            assert(input@.skip(used).subrange(0, size as int) =~= input@.subrange(
                used,
                used + size,
            ));
            assert(input@.skip(used).skip(size as int) =~= input@.skip(used + size));
            assert(files_view(files@.push(file)) == files_view(files@).push(file@));
        }
        files.push(file);
        cur = rest;
        i = i + 1;
    }
    Ok((cur, (files, directory_info)))
}

/// The member files of an archive whose bytes from the first storage block
/// on are `data`, and how many of those bytes the storage blocks occupy.
pub open spec fn files_of(
    data: Seq<u8>,
    blocks: Seq<UnityStorageBlock>,
    nodes: Seq<NodeView>,
) -> Result<(Seq<FileView>, int), BundleError> {
    match payload_of(data, blocks) {
        Err(e) => Err(e),
        Ok((payload, used)) => match stream_files_of(payload, nodes) {
            None => Err(BundleError::TruncatedPayload),
            Some((files, _)) => Ok((files, used)),
        },
    }
}

/// Expands the storage blocks at the front of `input` and cuts the payload
/// into member files. Both tables are handed back untouched, with the bytes
/// that follow the last storage block.
pub fn read_files<'a>(
    input: &'a [u8],
    storage_blocks: Vec<UnityStorageBlock>,
    directory_info: Vec<UnityNode>,
) -> (r: Result<
    (&'a [u8], (Vec<UnityStreamFile>, Vec<UnityStorageBlock>, Vec<UnityNode>)),
    BundleError,
>)
    ensures
        match r {
            Ok((rest, (files, blocks, nodes))) => blocks == storage_blocks && nodes
                == directory_info && files_of(
                input@,
                storage_blocks@,
                nodes_view(directory_info@),
            ) == Ok::<(Seq<FileView>, int), BundleError>(
                (files_view(files@), input@.len() - rest@.len()),
            ) && rest@.len() <= input@.len() && rest@ == input@.skip(
                input@.len() - rest@.len(),
            ),
            Err(e) => files_of(input@, storage_blocks@, nodes_view(directory_info@)) == Err::<
                (Seq<FileView>, int),
                BundleError,
            >(e),
        },
{
    let (rest, (payload, storage_blocks)) = match decompress_by_storage_blocks(
        input,
        storage_blocks,
    ) {
        Ok(found) => found,
        Err(e) => { return Err(e); },
    };
    match read_stream_files(payload.as_slice(), directory_info) {
        Ok((_, (stream_files, directory_info))) => Ok(
            (rest, (stream_files, storage_blocks, directory_info)),
        ),
        Err(e) => Err(e),
    }
}

} // verus!
