//! Federated crawler for software-forge metadata: the decision logic of
//! the crawl engine, the introducer protocol, the federated search
//! dispatcher, the peer registry and the ownership verifier.

pub mod counter;
pub mod ctx;
pub mod db;
pub mod dns;
pub mod errors;
pub mod federate;
pub mod forge;
pub mod gitea;
pub mod introduce;
pub mod master;
pub mod memory;
pub mod mock;
pub mod pages;
pub mod publiccode;
pub mod routes;
pub mod search;
pub mod settings;
pub mod spider;
pub mod store;
pub mod table;
pub mod text;
pub mod verify;
pub mod weburl;
