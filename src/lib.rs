//! Snapshot history, compression and replay verification for the canvases
//! of a pixel editor.
//!
//! Each open view keeps a non-empty history of compressed snapshots with a
//! cursor for undo and redo; the table of histories also holds the state of
//! replay verification, which records or checks the hashes of rendered
//! frames. The export module turns a view into an indexed-palette animation.
pub mod codec;
pub mod color;
pub mod export;
pub mod history;
pub mod replay;
pub mod resources;

pub use codec::Compressed;
pub use color::{Bgra8, PixelBufferError, Rgba8};
pub use export::{ExportError, GifAnimation};
pub use history::{Snapshot, SnapshotId, ViewExtent, ViewResources};
pub use replay::{HashError, ReplayVerifier, VerifyResult};
pub use resources::{Resources, ViewId};
