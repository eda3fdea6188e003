//! Volume-notification helper library.
//!
//! The executable around this library adjusts an audio sink with an external
//! mixer tool and shows a desktop notification summarising the new state.  So
//! that repeated invocations replace one notification instead of stacking new
//! ones, the identifier of the first notification is kept in a tiny on-disk
//! record shared by all concurrent invocations.  Everything that decides or
//! computes lives here, verified: the mixer command built for each task, the
//! parser for the mixer's volume report, icon selection, the record's text
//! format, and the shared-then-exclusive lock protocol that makes the record's
//! single write race-free.  The thin shell around it performs the subprocess
//! calls and the file I/O.

pub mod args;
pub mod digits;
pub mod icon;
pub mod notify;
pub mod record;
pub mod store;
pub mod text;
pub mod volume;
