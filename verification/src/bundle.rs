use crate::blocks_info::{
    blocks_info_of, nodes_view, read_blocks_info_and_directory, NodeView, UnityNode,
    UnityStorageBlock, FIRST_UNSUPPORTED_VERSION,
};
use crate::error::BundleError;
use crate::header::{
    container_header_of, header_of, lemma_header_len, read_unity_asset_bundle_header,
    read_unity_container_header, HeaderView, UnityAssetBundleHeader, UnityContainerHeader,
    CONTAINER_HEADER_LEN,
};
use crate::payload::{
    declared_len, files_of, files_view, lemma_payload_len, lemma_stream_files, payload_of,
    read_files, total_body_len, FileView, UnityStreamFile,
};
use vstd::prelude::*;

verus! {

/// A decoded archive: its two headers, its two tables, and its member files.
#[derive(Debug)]
pub struct UnityAssetBundle {
    pub header: UnityAssetBundleHeader,
    pub container_header: UnityContainerHeader,
    pub storage_blocks: Vec<UnityStorageBlock>,
    pub directory_info: Vec<UnityNode>,
    pub stream_files: Vec<UnityStreamFile>,
}

/// What a `UnityAssetBundle` holds, as mathematical values.
pub struct BundleView {
    pub header: HeaderView,
    pub container_header: UnityContainerHeader,
    pub storage_blocks: Seq<UnityStorageBlock>,
    pub directory_info: Seq<NodeView>,
    pub stream_files: Seq<FileView>,
}

impl BundleView {
    /// What holds of every decoded archive: its format version is one that
    /// is decoded; it has one file for each directory node, in the same
    /// order, named after the node and as long as the node asks; and the
    /// files together are no longer than the storage blocks declare.
    pub open spec fn well_formed(self) -> bool {
        &&& self.header.version < FIRST_UNSUPPORTED_VERSION
        &&& self.stream_files.len() == self.directory_info.len()
        &&& forall|i: int|
            0 <= i < self.directory_info.len() ==> (#[trigger] self.stream_files[i]).path
                == self.directory_info[i].path && self.stream_files[i].file_name
                == self.directory_info[i].path && self.stream_files[i].body.len()
                == self.directory_info[i].size
        &&& total_body_len(self.stream_files) <= declared_len(
            self.storage_blocks,
            self.storage_blocks.len(),
        )
    }
}

impl View for UnityAssetBundle {
    type V = BundleView;

    open spec fn view(&self) -> BundleView {
        BundleView {
            header: self.header@,
            container_header: self.container_header,
            storage_blocks: self.storage_blocks@,
            directory_info: nodes_view(self.directory_info@),
            stream_files: files_view(self.stream_files@),
        }
    }
}

/// The archive that the bytes `s` encode, and the number of bytes up to the
/// end of its last storage block; or the error of the first stage that
/// cannot make sense of them.
pub open spec fn bundle_of(s: Seq<u8>) -> Result<(BundleView, int), BundleError> {
    match header_of(s) {
        None => Err(BundleError::MalformedHeader),
        Some((header, header_len)) => match container_header_of(s.skip(header_len)) {
            None => Err(BundleError::MalformedHeader),
            Some(container_header) => {
                let tables_at = header_len + CONTAINER_HEADER_LEN;
                match blocks_info_of(s.skip(tables_at), header.version, container_header) {
                    Err(e) => Err(e),
                    Ok((storage_blocks, directory_info, tables_len)) => {
                        let blocks_at = tables_at + tables_len;
                        match files_of(s.skip(blocks_at), storage_blocks, directory_info) {
                            Err(e) => Err(e),
                            Ok((stream_files, blocks_len)) => Ok(
                                (
                                    BundleView {
                                        header,
                                        container_header,
                                        storage_blocks,
                                        directory_info,
                                        stream_files,
                                    },
                                    blocks_at + blocks_len,
                                ),
                            ),
                        }
                    },
                }
            },
        },
    }
}

/// Every archive that decodes is well formed, and the position after its
/// last storage block lies within the bytes.
pub proof fn lemma_bundle_shape(s: Seq<u8>)
    requires
        bundle_of(s) is Ok,
    ensures
        bundle_of(s) matches Ok((bundle, used)) ==> bundle.well_formed() && 0 <= used <= s.len(),
{
    let (header, header_len) = header_of(s)->Some_0;
    let container_header = container_header_of(s.skip(header_len))->Some_0;
    let tables_at = header_len + CONTAINER_HEADER_LEN;
    let (blocks, nodes, tables_len) = blocks_info_of(
        s.skip(tables_at),
        header.version,
        container_header,
    )->Ok_0;
    let data = s.skip(tables_at + tables_len);
    let (payload, blocks_len) = payload_of(data, blocks)->Ok_0;
    lemma_header_len(s);
    assert(0 <= tables_len <= s.len() - tables_at);
    lemma_payload_len(data, blocks, blocks.len());
    lemma_stream_files(payload, nodes, nodes.len());
}

/// Decodes an archive held in `input`. On success the archive comes back
/// with the bytes that follow its last storage block; on failure, the error
/// of the stage that gave up, and nothing else.
pub fn read_unity_asset_bundle<'a>(input: &'a [u8]) -> (r: Result<
    (&'a [u8], UnityAssetBundle),
    BundleError,
>)
    ensures
        match r {
            Ok((rest, bundle)) => bundle_of(input@) == Ok::<(BundleView, int), BundleError>(
                (bundle@, input@.len() - rest@.len()),
            ) && rest@.len() <= input@.len() && rest@ == input@.skip(
                input@.len() - rest@.len(),
            ) && bundle@.well_formed(),
            Err(e) => bundle_of(input@) == Err::<(BundleView, int), BundleError>(e),
        },
{
    let (after_header, header) = match read_unity_asset_bundle_header(input) {
        Ok(found) => found,
        Err(e) => { return Err(e); },
    };
    let ghost header_len = input@.len() - after_header@.len();
    let (after_container, container_header) = match read_unity_container_header(after_header) {
        Ok(found) => found,
        Err(e) => { return Err(e); },
    };
    let ghost tables_at = header_len + CONTAINER_HEADER_LEN;
    proof {
        assert(input@.skip(header_len).skip(CONTAINER_HEADER_LEN as int) =~= input@.skip(
            tables_at,
        ));
    }
    let (after_tables, ((header, container_header), (storage_blocks, directory_info))) =
        match read_blocks_info_and_directory(after_container, header, container_header) {
        Ok(found) => found,
        Err(e) => { return Err(e); },
    };
    let ghost blocks_at = tables_at + (after_container@.len() - after_tables@.len());
    proof {
        assert(input@.skip(tables_at).skip(after_container@.len() - after_tables@.len())
            =~= input@.skip(blocks_at));
    }
    let (rest, (stream_files, storage_blocks, directory_info)) = match read_files(
        after_tables,
        storage_blocks,
        directory_info,
    ) {
        Ok(found) => found,
        Err(e) => { return Err(e); },
    };
    proof {
        assert(input@.skip(blocks_at).skip(after_tables@.len() - rest@.len()) =~= input@.skip(
            blocks_at + (after_tables@.len() - rest@.len()),
        ));
        lemma_bundle_shape(input@);
    }
    Ok(
        (
            rest,
            UnityAssetBundle {
                header,
                container_header,
                storage_blocks,
                directory_info,
                stream_files,
            },
        ),
    )
}

} // verus!
