use vstd::prelude::*;

verus! {

/// Which on-disk state to delete before the node starts.
#[derive(Clone, Copy, Debug, PartialEq, Eq, Structural)]
pub enum WipeMode {
    /// All worker state: service instances and their state, enqueued invocations, timers.
    Worker,
    /// The local log.
    LocalLoglet,
    /// The local metadata store.
    LocalMetadataStore,
    /// Everything under the node's directory.
    All,
}

/// The directory under the node's base directory that a wipe deletes; empty for the base
/// directory itself.
pub open spec fn wipe_dir_spec(mode: WipeMode) -> Seq<char> {
    match mode {
        WipeMode::Worker => "partition-store"@,
        WipeMode::LocalLoglet => "local-loglet"@,
        WipeMode::LocalMetadataStore => "local-metadata-store"@,
        WipeMode::All => Seq::empty(),
    }
}

impl WipeMode {
    /// The directory, relative to the node's base directory, that wiping in `mode` deletes;
    /// `None` when nothing is to be wiped.
    pub fn wipe(mode: Option<WipeMode>) -> (r: Option<String>)
        ensures
            r.is_some() == mode.is_some(),
            r.is_some() ==> r.unwrap()@ == wipe_dir_spec(mode.unwrap()),
    {
        match mode {
            Some(WipeMode::Worker) => Some("partition-store".to_owned()),
            Some(WipeMode::LocalLoglet) => Some("local-loglet".to_owned()),
            Some(WipeMode::LocalMetadataStore) => Some("local-metadata-store".to_owned()),
            Some(WipeMode::All) => Some(String::new()),
            None => None,
        }
    }
}

} // verus!
