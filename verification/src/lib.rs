pub mod buffers;
pub mod container;
pub mod data_uri;
pub mod document;
pub mod error;
pub mod importer;
pub mod location;
pub mod resolver;
pub mod semantics;
pub mod text;

pub use buffers::Buffers;
pub use document::{BufferDecl, BufferSource, Document, ViewDecl};
pub use error::ImportError;
pub use importer::{import, import_binary, import_standard};
pub use resolver::{load_external_buffers, PendingRead, Progress};
