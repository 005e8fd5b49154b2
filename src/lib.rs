//! Reading tracker modules (IT, XM, S3M, MOD, UMX) from bytes, and turning their embedded
//! samples into WAV data.
pub mod amig_mod;
pub mod bytes;
pub mod error;
pub mod filters;
pub mod it;
pub mod loader;
pub mod module;
pub mod pcm;
pub mod pitch;
pub mod s3m;
pub mod umx;
pub mod wav;
pub mod xm;

pub use amig_mod::{MODFile, MODSample};
pub use error::{Error, ErrorKind};
pub use filters::{Filter, Filters, SupportedFormat};
pub use it::ITFile;
pub use loader::{load_from_ext, load_module};
pub use module::{Encoding, Format, TrackerModule, TrackerSample};
pub use s3m::S3MFile;
pub use umx::UMXFile;
pub use xm::XMFile;
