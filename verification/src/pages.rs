//! The routes of the pages and the numbering of their parts.

use vstd::prelude::*;
use crate::text::{decimal, decimal_of, join3};

verus! {

/// Authentication routes
#[derive(Debug)]
pub struct Auth {
    /// logout route
    pub logout: &'static str,
    /// login route
    pub add: &'static str,
    /// verify route
    pub verify: &'static str,
}

impl Auth {
    /// create new instance of Authentication route
    pub fn new() -> (a: Auth)
        ensures
            a.add@ == "/add"@,
            a.logout@ == "/logout"@,
            a.verify@ == "/verify"@,
    {
        Auth { add: "/add", logout: "/logout", verify: "/verify" }
    }

    /// The route on which the challenge under `hostname` is verified.
    pub fn verify_get(&self, hostname: &str) -> (r: String)
        ensures
            r@ == self.verify@ + "?hostname="@ + hostname@,
    {
        join3(self.verify, "?hostname=", hostname)
    }
}

/// Top-level routes data structure for V1 AP1
#[derive(Debug)]
pub struct Pages {
    /// home page
    pub home: &'static str,
    /// explore page
    pub explore: &'static str,
    /// search page
    pub search: &'static str,
    /// auth routes
    pub auth: Auth,
}

impl Pages {
    /// create new instance of Routes
    pub fn new() -> (p: Pages)
        ensures
            p.home@ == "/explore"@,
            p.explore@ == "/explore"@,
            p.search@ == "/search"@,
            p.auth.add@ == "/add"@,
            p.auth.logout@ == "/logout"@,
            p.auth.verify@ == "/verify"@,
    {
        Pages { home: "/explore", explore: "/explore", search: "/search", auth: Auth::new() }
    }

    /// The route of the part `page` of the explore page.
    pub fn explore_next(&self, page: u32) -> (r: String)
        ensures
            r@ == self.explore@ + "?page="@ + decimal(page as nat),
    {
        let number = decimal_of(page as u64);
        join3(self.explore, "?page=", number.as_str())
    }
}

/// A part of a list, counted from 0.
#[derive(Clone, Copy, Debug, PartialEq, Eq, Structural)]
pub struct Page {
    /// the number of the part
    pub page: u32,
}

impl Page {
    /// The number, as the pages show it, of the part after this one.
    pub fn next(&self) -> (r: u32)
        requires
            self.page <= u32::MAX - 2,
        ensures
            r == self.page + 2,
    {
        self.page + 2
    }

    /// The number, as the pages show it, of the part before this one; of
    /// the first part, its own.
    pub fn prev(&self) -> (r: u32)
        ensures
            r == if self.page == 0 {
                1
            } else {
                self.page as int
            },
    {
        if self.page == 0 {
            1
        } else {
            self.page
        }
    }

    /// The number of rows that stand before the part, with `limit` rows
    /// per part; `None` where it cannot be counted.
    pub fn offset(&self, limit: u32) -> (r: Option<u32>)
        ensures
            r == if self.page * limit <= u32::MAX {
                Some((self.page * limit) as u32)
            } else {
                None
            },
    {
        self.page.checked_mul(limit)
    }

    /// The part that a request asks for: the pages count parts from 1;
    /// a request without a number asks for the first part.
    pub fn from(o: OptionalPage) -> (p: Page)
        requires
            o.page != Some(0u32),
        ensures
            p.page == match o.page {
                Some(n) => n - 1,
                None => 0,
            },
    {
        match o.page {
            Some(page) => Page { page: page - 1 },
            None => Page { page: 0 },
        }
    }
}

/// The part of a list that a request asks for, if it names one.
#[derive(Clone, Copy, Debug, PartialEq, Eq, Structural)]
pub struct OptionalPage {
    /// the number of the part, counted from 1
    pub page: Option<u32>,
}

/// The request that a challenge be verified.
#[derive(Debug)]
pub struct VerifyChallengePayload {
    /// the key of the challenge
    pub hostname: String,
}

} // verus!
