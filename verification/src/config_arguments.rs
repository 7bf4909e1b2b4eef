use vstd::prelude::*;

verus! {

/// Runtime configuration: the address of the upstream resolver, as
/// `host:port` text.
pub struct Config {
    pub target_server: String,
}

impl Config {
    pub fn new(target_server: String) -> (c: Config)
        ensures
            c.target_server@ == target_server@,
    {
        Config { target_server }
    }
}

} // verus!
