//! Organizes photo and video files by their modification date.
//!
//! The library holds the verified logic of an interactive session that
//! buckets media files into calendar-date groups, walks the user through
//! each group (next/previous image, free-text label), and plans the move
//! of a labelled group into a `DD-MM-YYYY_<label>` directory. All
//! filesystem and terminal work stays outside; the library computes over
//! plain values.

pub mod commands;
pub mod date;
pub mod group;
pub mod scan;
pub mod session;

pub use commands::Confirmation;
pub use commands::UserCommand;
pub use date::Date;
pub use group::DateGroup;
pub use group::GroupedCollection;
pub use scan::MediaFile;
pub use session::RelocationPlan;
pub use session::Session;
pub use session::StepOutcome;
