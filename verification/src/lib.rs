//! An in-process instrumentation library for recording hierarchical,
//! per-frame timing data.
//!
//! Scope guards emit start/end events; a tree builder reconstructs nested
//! task trees from the flat event stream; completed frames are serialized
//! into length-delimited binary records inside a compressed byte stream,
//! and a reader decodes such a stream back into frame trees.

pub mod builder;
pub mod codec;
pub mod event;
pub mod label;
pub mod lifecycle;
pub mod profile;
pub mod recorder;
pub mod stream;
pub mod task;

pub use event::{Event, TaskRecord};
pub use lifecycle::{Lifecycle, ProfileError};
pub use profile::{Frame, FrameData, ProfileData, TaskObject};
pub use stream::{read_profile_data, DecodeError};
pub use task::TaskData;
