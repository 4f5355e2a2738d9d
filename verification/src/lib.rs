pub mod cli;
pub mod errors;
pub mod extractor;
pub mod iso;
pub mod jpeg;
pub mod json;
pub mod manifest;
pub mod paths;
pub mod report;
pub mod run;
pub mod text;

pub use cli::Config;
pub use errors::{AppError, AppResult};
pub use extractor::{ExtractionResult, ExtractionStatus, InputSummary, RunSummary};
