//! A logging backend that routes each record to a console line, a shared
//! daily file and, for records that carry a correlation key, a file of that
//! key's own.
//!
//! The crate decides and formats; it opens and writes nothing itself. Every
//! call that handles a record returns the list of [`Output`]s that the caller
//! has to carry out, in order: lines to print, and lines to append to files,
//! each with the handle to open or to close first.

pub mod cache;
pub mod clock;
pub mod handles;
pub mod level;
pub mod logger;
pub mod names;
pub mod record;
pub mod text;

pub use cache::{Acquired, Destination, FileCache};
pub use clock::Moment;
pub use level::{admits, Level, LevelFilter};
pub use logger::{init_logger, write_to_file, DailyLogger, FileWrite, Output, MAX_CACHE_SIZE};
pub use names::{daily_file_name, order_file_name};
pub use record::{colorize, format_entry, Record};
