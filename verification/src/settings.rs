//! The settings of the service, as far as the library reads them.

use vstd::prelude::*;
use crate::text::{decimal, decimal_of, join3, owned, same};
use crate::weburl::Url;

verus! {

/// Where the service listens.
#[derive(Debug)]
pub struct Server {
    /// the port
    pub port: u32,
    /// the domain under which the service is reached
    pub domain: String,
    /// the address
    pub ip: String,
    /// whether a proxy in front of the service speaks TLS
    pub proxy_has_tls: bool,
}

impl Server {
    /// The socket address at which the service listens: the address, a
    /// colon and the port.
    pub fn get_ip(&self) -> (r: String)
        ensures
            r@ == self.ip@ + ":"@ + decimal(self.port as nat),
    {
        let port = decimal_of(self.port as u64);
        join3(self.ip.as_str(), ":", port.as_str())
    }
}

/// How much the service logs.
#[derive(Clone, Copy, Debug, PartialEq, Eq, Structural)]
pub enum LogLevel {
    Debug,
    Info,
    Trace,
    Error,
    Warn,
}

impl LogLevel {
    /// The name of the level.
    pub fn to_str(&self) -> (r: &'static str)
        ensures
            r@ == match *self {
                LogLevel::Debug => "debug"@,
                LogLevel::Info => "info"@,
                LogLevel::Trace => "trace"@,
                LogLevel::Error => "error"@,
                LogLevel::Warn => "warn"@,
            },
    {
        match self {
            LogLevel::Debug => "debug",
            LogLevel::Info => "info",
            LogLevel::Trace => "trace",
            LogLevel::Error => "error",
            LogLevel::Warn => "warn",
        }
    }
}

/// The kind of database behind the store.
#[derive(Clone, Copy, Debug, PartialEq, Eq, Structural)]
pub enum DBType {
    Postgres,
    Sqlite,
}

impl DBType {
    /// The name of the kind.
    pub fn to_str(&self) -> (r: &'static str)
        ensures
            r@ == match *self {
                DBType::Postgres => "postgres"@,
                DBType::Sqlite => "sqlite"@,
            },
    {
        match self {
            DBType::Postgres => "postgres",
            DBType::Sqlite => "sqlite",
        }
    }

    /// The kind of database that the URL names by its scheme; an error
    /// that says so where the scheme names none.
    pub fn from_url(url: &Url) -> (r: Result<DBType, String>)
        ensures
            match r {
                Ok(kind) => Some(kind) == Self::spec_from_scheme(url@.scheme),
                Err(message) => Self::spec_from_scheme(url@.scheme) is None && message@
                    == "Unknown database type"@,
            },
    {
        match Self::from_scheme(url.scheme()) {
            Some(kind) => Ok(kind),
            None => Err(owned("Unknown database type")),
        }
    }

    /// The kind of database that the scheme `scheme` names.
    pub open spec fn spec_from_scheme(scheme: Seq<char>) -> Option<DBType> {
        if scheme == "sqlite"@ {
            Some(DBType::Sqlite)
        } else if scheme == "postgres"@ {
            Some(DBType::Postgres)
        } else {
            None
        }
    }

    /// The kind of database that a URL with the scheme `scheme` names;
    /// `None` for a scheme that names none.
    pub fn from_scheme(scheme: &str) -> (r: Option<DBType>)
        ensures
            r == Self::spec_from_scheme(scheme@),
    {
        if same(scheme, "sqlite") {
            Some(DBType::Sqlite)
        } else if same(scheme, "postgres") {
            Some(DBType::Postgres)
        } else {
            None
        }
    }
}

/// The settings of the crawler.
#[derive(Clone, Copy, Debug, PartialEq, Eq, Structural)]
pub struct Crawler {
    /// the seconds from the end of one cycle to the start of the next
    pub ttl: u64,
    /// the seconds after which a request to a forge is given up
    pub client_timeout: u64,
    /// the repositories that are asked for per page
    pub items_per_api_call: u64,
    /// the seconds between two requests for topics
    pub wait_before_next_api_call: u64,
}

} // verus!
