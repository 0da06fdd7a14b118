//! Entries, segment workers and the manager that routes commands to them.

pub mod entry;
pub mod manager;
pub mod worker;

use vstd::prelude::*;

verus! {

/// A command from the user to the download manager.
pub enum Command {
    /// Download `url` into the file `name`.
    Enqueue { url: String, name: String },
    /// Run the failed segments of entry `id` again.
    Restart { id: usize },
    /// Cancel entry `id` and remove its files.
    Delete { id: usize },
}

} // verus!
