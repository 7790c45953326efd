//! Decoder for Unity asset bundle archives held in memory.
//!
//! The archive is read in stages: the textual header, the container
//! descriptor, the (possibly compressed) blocks-info table, the storage
//! blocks, and finally the member files cut out of the reassembled payload.
//! Every stage has a mathematical model over `Seq<u8>` and an executable
//! reader that is proved to compute exactly that model. A sniffer, apart
//! from the stages, tells what kind of container a buffer is.

pub mod blocks_info;
pub mod bundle;
pub mod bytes;
pub mod codec;
pub mod error;
pub mod header;
pub mod payload;
pub mod sniff;
pub mod text;

pub use crate::blocks_info::{UnityNode, UnityStorageBlock};
pub use crate::bundle::{read_unity_asset_bundle, UnityAssetBundle};
pub use crate::error::BundleError;
pub use crate::header::{UnityAssetBundleHeader, UnityContainerHeader};
pub use crate::payload::UnityStreamFile;
pub use crate::sniff::{classify, FileKind};
