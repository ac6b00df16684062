//! The routes of the API and the bodies that travel on them.

use vstd::prelude::*;
use crate::db::Repository;
use crate::text::{decimal, decimal_of, join2};

verus! {

/// The route of the federated search.
#[derive(Debug)]
pub struct Search {
    /// search for repositories
    pub repository: &'static str,
}

impl Search {
    /// The route of the federated search.
    pub fn new() -> (s: Search)
        ensures
            s.repository@ == "/api/v1/search/repository"@,
    {
        Search { repository: "/api/v1/search/repository" }
    }
}

/// The routes of the introducer.
#[derive(Debug)]
pub struct Introducer {
    /// the known peers, page by page
    pub list: &'static str,
    /// register a peer
    pub introduce: &'static str,
    /// the mini-index of this instance
    pub get_mini_index: &'static str,
}

impl Introducer {
    /// The routes of the introducer.
    pub fn new() -> (i: Introducer)
        ensures
            i.list@ == "/api/v1/introducer/list"@,
            i.introduce@ == "/api/v1/introducer/new"@,
            i.get_mini_index@ == "/api/v1/introducer/mini-index"@,
    {
        Introducer {
            list: "/api/v1/introducer/list",
            introduce: "/api/v1/introducer/new",
            get_mini_index: "/api/v1/introducer/mini-index",
        }
    }
}

/// The mini-index of an instance, as it travels.
#[derive(Debug)]
pub struct MiniIndex {
    /// the words, with one space between each two
    pub mini_index: String,
}

/// The routes of the API.
#[derive(Debug)]
pub struct Api {
    /// the latest archive of the federation export store
    pub get_latest: &'static str,
    /// the forges that were crawled here, page by page
    pub forges: &'static str,
    /// the federated search
    pub search: Search,
    /// the introducer
    pub introducer: Introducer,
}

impl Api {
    /// The routes of the API.
    pub fn new() -> (a: Api)
        ensures
            a.get_latest@ == "/api/v1/federated/latest"@,
            a.forges@ == "/api/v1/forges/list"@,
            a.search.repository@ == "/api/v1/search/repository"@,
            a.introducer.list@ == "/api/v1/introducer/list"@,
            a.introducer.introduce@ == "/api/v1/introducer/new"@,
            a.introducer.get_mini_index@ == "/api/v1/introducer/mini-index"@,
    {
        Api {
            get_latest: "/api/v1/federated/latest",
            forges: "/api/v1/forges/list",
            search: Search::new(),
            introducer: Introducer::new(),
        }
    }
}

/// The query that asks for the part `page` of a list.
pub fn page_query(page: u32) -> (r: String)
    ensures
        r@ == "page="@ + decimal(page as nat),
{
    let number = decimal_of(page as u64);
    join2("page=", number.as_str())
}

/// The name of the latest archive, as it travels.
#[derive(Debug)]
pub struct LatestResp {
    /// the file name of the archive
    pub latest: String,
}

/// The request of a federated search.
#[derive(Debug)]
pub struct SearchRepositoryReq {
    /// the query
    pub query: String,
}

/// The answer to a federated search.
#[derive(Debug)]
pub struct SearchRepositoryResp {
    /// the repositories that were found
    pub repositories: Vec<Repository>,
}

} // verus!
