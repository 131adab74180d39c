pub mod error;
pub mod fingerprint;
pub mod partition;
pub mod paths;
pub mod report;

pub use error::Error;
pub use fingerprint::{fingerprint, Fingerprinter};
pub use partition::{partition, process_files};
pub use paths::collect_paths;
pub use report::pluralize;
