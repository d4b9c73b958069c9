use vstd::prelude::*;

verus! {

/// The options every subcommand shares: where the preset file lives, how
/// chatty to be, and how long to wait on the configuration service, in
/// seconds.
#[derive(Debug)]
pub struct GenericOptions {
    pub config_path: String,
    pub verbose: bool,
    pub timeout_secs: u64,
}

} // verus!
