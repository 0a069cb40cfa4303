//! The service's configuration: database connection, write tokens and port.

use vstd::prelude::*;
use crate::errors::ApiError;
use crate::text::{concatenate, decimal, signed_decimal_of};

verus! {

/// The login name of the user running the service (`whoami::username`), or the
/// empty string when the system does not tell it.
#[verifier::external_body]
fn system_username() -> String {
    whoami::username().unwrap_or_default()
}

/// How to reach the database.
#[derive(Debug, Clone)]
pub struct DatabaseData {
    /// The server's address, in its textual form.
    pub address: String,
    pub port: u16,
    pub username: String,
    pub passwd: String,
    pub name: String,
}

/// The connection URL of a database:
/// `mariadb://<username>:<passwd>@<address>:<port>/<name>`.
pub open spec fn database_url(d: DatabaseData) -> Seq<char> {
    "mariadb://"@ + d.username@ + ":"@ + d.passwd@ + "@"@ + d.address@ + ":"@ + decimal(
        d.port as nat,
    ) + "/"@ + d.name@
}

impl DatabaseData {
    /// The database server's address when none is configured: the loopback address.
    pub fn default_address() -> (s: String)
        ensures
            s@ == "127.0.0.1"@,
    {
        String::from_str("127.0.0.1")
    }

    /// The database server's port when none is configured.
    pub fn default_port() -> (p: u16)
        ensures
            p == 3306,
    {
        3306
    }

    /// The database user when none is configured: the user running the service.
    pub fn default_username() -> String {
        system_username()
    }

    /// The database name when none is configured.
    pub fn default_name() -> (s: String)
        ensures
            s@ == "wifi_test"@,
    {
        String::from_str("wifi_test")
    }

    /// The URL to connect to the database with.
    pub fn get_url(&self) -> (url: String)
        ensures
            url@ == database_url(*self),
    {
        let port = signed_decimal_of(self.port as i64);
        let u = concatenate("mariadb://", self.username.as_str());
        let u = concatenate(u.as_str(), ":");
        let u = concatenate(u.as_str(), self.passwd.as_str());
        let u = concatenate(u.as_str(), "@");
        let u = concatenate(u.as_str(), self.address.as_str());
        let u = concatenate(u.as_str(), ":");
        let u = concatenate(u.as_str(), port.as_str());
        let u = concatenate(u.as_str(), "/");
        concatenate(u.as_str(), self.name.as_str())
    }
}

impl Default for DatabaseData {
    fn default() -> (d: Self)
        ensures
            d.address@ == "127.0.0.1"@,
            d.port == 3306,
            d.passwd@ == Seq::<char>::empty(),
            d.name@ == "wifi_test"@,
    {
        DatabaseData {
            address: Self::default_address(),
            port: Self::default_port(),
            username: Self::default_username(),
            passwd: String::new(),
            name: Self::default_name(),
        }
    }
}

/// The configuration of the service.
#[derive(Debug, Clone)]
pub struct Config {
    pub database: DatabaseData,
    /// The tokens that allow writing requests.
    pub write_tokens: Vec<u64>,
    /// How many downloads run at once while scraping a forum.
    pub parallel_tasks: usize,
    /// The port the API listens on.
    pub port: u16,
}

impl Config {
    /// How many downloads run at once when the configuration does not say.
    pub fn default_parallel_tasks() -> (n: usize)
        ensures
            n == 16,
    {
        16
    }

    /// The API's port when the configuration does not say.
    pub fn default_port() -> (p: u16)
        ensures
            p == 2012,
    {
        2012
    }

    /// Accepts a write request carrying `token` exactly when it is one of the
    /// configured write tokens.
    pub fn validate_token(&self, token: u64) -> (r: Result<(), ApiError>)
        ensures
            r is Ok <==> self.write_tokens@.contains(token),
            r is Err ==> r matches Err(ApiError::AccessForbidden),
    {
        let mut i: usize = 0;
        while i < self.write_tokens.len()
            invariant
                i <= self.write_tokens.len(),
                forall|j: int| 0 <= j < i ==> self.write_tokens@[j] != token,
            decreases self.write_tokens.len() - i,
        {
            if self.write_tokens[i] == token {
                return Ok(());
            }
            i = i + 1;
        }
        Err(ApiError::AccessForbidden)
    }

    /// The address the API listens on: every interface, at the configured port.
    pub fn get_bind_addr(&self) -> (s: String)
        ensures
            s@ == "0.0.0.0:"@ + decimal(self.port as nat),
    {
        let port = signed_decimal_of(self.port as i64);
        concatenate("0.0.0.0:", port.as_str())
    }
}

impl Default for Config {
    fn default() -> (c: Self)
        ensures
            c.database.address@ == "127.0.0.1"@,
            c.database.port == 3306,
            c.database.passwd@ == Seq::<char>::empty(),
            c.database.name@ == "wifi_test"@,
            c.write_tokens@ == Seq::<u64>::empty(),
            c.parallel_tasks == 16,
            c.port == 2012,
    {
        Config {
            database: DatabaseData::default(),
            parallel_tasks: Self::default_parallel_tasks(),
            port: Self::default_port(),
            write_tokens: Vec::new(),
        }
    }
}

/// What the last action of the search for a configuration file met.
#[derive(Debug, Clone, Copy, PartialEq, Eq)]
pub enum CfgEvent {
    /// The search starts.
    Start,
    /// The file at the path was read.
    Read,
    /// There is no file at the path.
    ReadNotFound,
    /// Reading the file at the path failed otherwise.
    ReadFailed,
    /// A new file was created at the path.
    Created,
    /// No file could be created at the path: permission denied, or no such directory.
    CreateRefused,
    /// Creating a file at the path failed otherwise.
    CreateFailed,
}

/// What the search for a configuration file does next.
#[derive(Debug, Clone, Copy, PartialEq, Eq)]
pub enum CfgStep {
    /// Read the file at path `i`.
    Read(usize),
    /// Create a new file at path `i`.
    Create(usize),
    /// Use the file that was read.
    UseExisting,
    /// Use the file that was created, and write the defaults into it.
    UseNew,
    /// No path is left: there is no configuration file.
    NoFile,
    /// Stop with the error that was met.
    Fail,
}

/// The search for a configuration file among `n_paths` paths, tried in order,
/// after `event` at path `index`: a path is read; where it holds no file, one is
/// created there; where that is refused, the next path is tried; any other error
/// stops the search.
pub open spec fn cfg_step(index: int, n_paths: int, event: CfgEvent) -> CfgStep {
    match event {
        CfgEvent::Start => if 0 <= index < n_paths { CfgStep::Read(index as usize) } else { CfgStep::NoFile },
        CfgEvent::Read => CfgStep::UseExisting,
        CfgEvent::ReadNotFound => CfgStep::Create(index as usize),
        CfgEvent::ReadFailed => CfgStep::Fail,
        CfgEvent::Created => CfgStep::UseNew,
        CfgEvent::CreateRefused => if index + 1 < n_paths { CfgStep::Read((index + 1) as usize) } else { CfgStep::NoFile },
        CfgEvent::CreateFailed => CfgStep::Fail,
    }
}

/// The next step of the search for a configuration file after `event` at path `index`.
pub fn next_config_step(index: usize, n_paths: usize, event: CfgEvent) -> (s: CfgStep)
    ensures
        s == cfg_step(index as int, n_paths as int, event),
{
    match event {
        CfgEvent::Start => if index < n_paths { CfgStep::Read(index) } else { CfgStep::NoFile },
        CfgEvent::Read => CfgStep::UseExisting,
        CfgEvent::ReadNotFound => CfgStep::Create(index),
        CfgEvent::ReadFailed => CfgStep::Fail,
        CfgEvent::Created => CfgStep::UseNew,
        CfgEvent::CreateRefused => if n_paths > 0 && index < n_paths - 1 {
            CfgStep::Read(index + 1)
        } else {
            CfgStep::NoFile
        },
        CfgEvent::CreateFailed => CfgStep::Fail,
    }
}

/// The configuration paths are tried in order, none skipped: a search started at
/// path `i` reads it; where it holds no file, one is created there; where that is
/// refused, path `i + 1` is read next, and after the last path there is no file.
/// A file read, or created, is the one used; any other error stops the search.
pub proof fn lemma_cfg_paths_in_order(i: usize, n: usize)
    requires
        i < n,
    ensures
        cfg_step(i as int, n as int, CfgEvent::Start) matches CfgStep::Read(j) && j == i,
        cfg_step(i as int, n as int, CfgEvent::ReadNotFound) matches CfgStep::Create(j) && j == i,
        i + 1 < n ==> (cfg_step(i as int, n as int, CfgEvent::CreateRefused) matches CfgStep::Read(j) && j == i + 1),
        i + 1 == n ==> cfg_step(i as int, n as int, CfgEvent::CreateRefused) == CfgStep::NoFile,
        cfg_step(i as int, n as int, CfgEvent::Read) == CfgStep::UseExisting,
        cfg_step(i as int, n as int, CfgEvent::Created) == CfgStep::UseNew,
        cfg_step(i as int, n as int, CfgEvent::ReadFailed) == CfgStep::Fail,
        cfg_step(i as int, n as int, CfgEvent::CreateFailed) == CfgStep::Fail,
{
}

} // verus!
