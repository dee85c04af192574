//! Validated location values: path fragments, anchors, internal paths,
//! external URLs, and the sum of the internal and external cases.

pub mod external;
pub mod fragment;
pub mod general;
pub mod id;
pub mod internal;
pub mod path;

pub use external::External;
pub use external::InvalidExternal;
pub use fragment::Fragment;
pub use fragment::InvalidFragment;
pub use general::InvalidLocation;
pub use general::Location;
pub use id::Id;
pub use id::InvalidId;
pub use internal::Internal;
pub use internal::InvalidInternal;
pub use path::InternalPath;
pub use path::InvalidPath;
