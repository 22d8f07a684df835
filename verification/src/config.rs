//! The configuration of the gateway: set once before serving, read thereafter.

use vstd::prelude::*;
use vstd::string::*;

verus! {

/// The whole configuration.
pub struct Config {
    pub server: ServerConfig,
}

/// The settings of the server.
pub struct ServerConfig {
    /// The port to listen on.
    pub port: u16,
    /// The base directory of all content.
    pub wwwroot: String,
    /// Whether to listen on all interfaces, or on the loopback only.
    pub allow_public: bool,
    /// The public base URL, for the links that are handed out.
    pub host: String,
    /// The largest request body that an upload may have, in bytes.
    pub max_file_size: usize,
    /// The directory that receives what is soft-deleted.
    pub trash_can: String,
}

impl ServerConfig {
    /// Whether two settings say the same.
    pub open spec fn same(self, other: ServerConfig) -> bool {
        &&& self.port == other.port
        &&& self.wwwroot@ == other.wwwroot@
        &&& self.allow_public == other.allow_public
        &&& self.host@ == other.host@
        &&& self.max_file_size == other.max_file_size
        &&& self.trash_can@ == other.trash_can@
    }

    /// The address to bind to: every interface where the server is public,
    /// else the loopback.
    pub fn bind_address(&self) -> (octets: [u8; 4])
        ensures
            octets@ == if self.allow_public {
                seq![0u8, 0u8, 0u8, 0u8]
            } else {
                seq![127u8, 0u8, 0u8, 1u8]
            },
    {
        let octets: [u8; 4] = if self.allow_public {
            [0, 0, 0, 0]
        } else {
            [127, 0, 0, 1]
        };
        proof {
            if self.allow_public {
                assert(octets@ =~= seq![0u8, 0u8, 0u8, 0u8]);
            } else {
                assert(octets@ =~= seq![127u8, 0u8, 0u8, 1u8]);
            }
        }
        octets
    }
}

impl Clone for ServerConfig {
    fn clone(&self) -> (r: Self)
        ensures
            self.same(r),
    {
        ServerConfig {
            port: self.port,
            wwwroot: self.wwwroot.clone(),
            allow_public: self.allow_public,
            host: self.host.clone(),
            max_file_size: self.max_file_size,
            trash_can: self.trash_can.clone(),
        }
    }
}

impl Clone for Config {
    fn clone(&self) -> (r: Self)
        ensures
            self.server.same(r.server),
    {
        Config { server: self.server.clone() }
    }
}

impl Default for ServerConfig {
    /// Port 3000 on the loopback, the working directory as root, uploads of up
    /// to 20 MB, and a trash directory beside the content.
    fn default() -> (r: Self)
        ensures
            r.port == 3000,
            r.wwwroot@ == "."@,
            !r.allow_public,
            r.host@ == "http://localhost:3000"@,
            r.max_file_size == 20971520,
            r.trash_can@ == "./.trash"@,
    {
        ServerConfig {
            port: 3000,
            wwwroot: ".".to_owned(),
            allow_public: false,
            host: "http://localhost:3000".to_owned(),
            max_file_size: 20971520,
            trash_can: "./.trash".to_owned(),
        }
    }
}

impl Default for Config {
    fn default() -> (r: Self)
        ensures
            r.server.port == 3000,
            r.server.wwwroot@ == "."@,
            !r.server.allow_public,
            r.server.host@ == "http://localhost:3000"@,
            r.server.max_file_size == 20971520,
            r.server.trash_can@ == "./.trash"@,
    {
        Config { server: ServerConfig::default() }
    }
}

impl Config {
    /// The configuration with the settings `server`.
    pub fn new(server: ServerConfig) -> (r: Self)
        ensures
            r.server == server,
    {
        Config { server }
    }
}

/// Puts `value` into the configuration cell, in place of what it held.
pub fn set(cell: &mut Option<Config>, value: Config)
    ensures
        *final(cell) == Some(value),
{
    *cell = Some(value);
}

/// A copy of the configuration that the cell holds; `None` before the first
/// `set`.
pub fn get(cell: &Option<Config>) -> (r: Option<Config>)
    ensures
        match r {
            Some(c) => cell is Some && cell->0.server.same(c.server),
            None => cell is None,
        },
{
    match cell {
        Some(c) => Some(c.clone()),
        None => None,
    }
}

} // verus!
