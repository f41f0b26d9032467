use vstd::prelude::*;

verus! {

/// Settings of the server process.
#[derive(Debug, PartialEq, Eq)]
pub struct ServerConfig {
    pub port: u16,
}

impl Default for ServerConfig {
    fn default() -> (config: Self)
        ensures
            config.port == 7350,
    {
        ServerConfig { port: 7350 }
    }
}

} // verus!
