//! Resolution of the YAML merge-key (`<<`) extension on parsed document trees.
//!
//! The crate works on an insertion-ordered tree model of YAML values. Its
//! entry points expand every merge-key entry of a document, recursively,
//! and either return the fully merged tree or a [`MergeKeyError`].

pub mod bridge;
pub mod entries;
pub mod laws;
pub mod merge;
pub mod value;

pub use bridge::merge_keys_serde;
pub use bridge::to_alternate;
pub use bridge::to_native;
pub use bridge::AltValue;
pub use bridge::AltValueSpec;
pub use bridge::NumValue;
pub use merge::merge_keys;
pub use merge::MergeKeyError;
pub use value::Value;
pub use value::ValueSpec;
