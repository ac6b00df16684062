//! The ownership verifier: the DNS TXT challenge by which the one who asks
//! for a forge to be crawled shows that the hostname is theirs.

use vstd::prelude::*;
use crate::db::{Challenge, DBError};
use crate::errors::{ServiceError, ServiceResult};
use crate::pages::Pages;
use crate::store::Database;
use crate::text::{join2, join3, owned};
use crate::weburl::{get_hostname, Url};

verus! {

/// The number of characters of the value of a challenge.
pub const VALUES_LEN: usize = 30;

/// Whether `c` is an ASCII letter or digit.
pub open spec fn is_alphanumeric(c: char) -> bool {
    ||| 'a' <= c <= 'z'
    ||| 'A' <= c <= 'Z'
    ||| '0' <= c <= '9'
}

/// Draws `len` characters with `rand::distributions::Alphanumeric` from
/// `rand::thread_rng`. Each character is an ASCII letter or digit; which
/// ones they are is left open.
#[verifier::external_body]
fn get_random(len: usize) -> (r: String)
    ensures
        r@.len() == len,
        forall|i: int| 0 <= i < r@.len() ==> is_alphanumeric(#[trigger] r@[i]),
{
    ::rand::distributions::DistString::sample_string(
        &::rand::distributions::Alphanumeric,
        &mut ::rand::thread_rng(),
        len,
    )
}

/// A DNS TXT challenge: the name of the record and the value that it
/// must hold.
#[derive(Debug)]
pub struct TXTChallenge {
    /// the name of the TXT record
    pub key: String,
    /// the value of the TXT record
    pub value: String,
}

/// The name of the TXT record by which the instance on `domain`
/// challenges the owner of `host`.
pub open spec fn challenge_key(domain: Seq<char>, host: Seq<char>) -> Seq<char> {
    "starchart-"@ + domain + "."@ + host
}

impl TXTChallenge {
    /// The part of the key that names this instance.
    pub fn get_challenge_txt_key_prefix(domain: &str) -> (r: String)
        ensures
            r@ == "starchart-"@ + domain@,
    {
        join2("starchart-", domain)
    }

    /// The key of the challenge for the forge at `hostname`: it depends
    /// on the domain of this instance and the host of the forge alone.
    pub fn get_challenge_txt_key(domain: &str, hostname: &Url) -> (r: String)
        requires
            hostname@.host is Some,
        ensures
            r@ == challenge_key(domain@, hostname@.host->0),
    {
        let prefix = Self::get_challenge_txt_key_prefix(domain);
        join3(prefix.as_str(), ".", get_hostname(hostname))
    }

    /// The challenge for the forge at `hostname` with the value `value`.
    pub fn with_value(domain: &str, hostname: &Url, value: String) -> (c: Self)
        requires
            hostname@.host is Some,
        ensures
            c.key@ == challenge_key(domain@, hostname@.host->0),
            c.value == value,
    {
        TXTChallenge { key: Self::get_challenge_txt_key(domain, hostname), value }
    }

    /// A new challenge for the forge at `hostname`, with a random value of
    /// `VALUES_LEN` letters and digits.
    pub fn new(domain: &str, hostname: &Url) -> (c: Self)
        requires
            hostname@.host is Some,
        ensures
            c.key@ == challenge_key(domain@, hostname@.host->0),
            c.value@.len() == VALUES_LEN,
            forall|i: int| 0 <= i < c.value@.len() ==> is_alphanumeric(#[trigger] c.value@[i]),
    {
        Self::with_value(domain, hostname, get_random(VALUES_LEN))
    }

    /// Whether one of the TXT records that the lookup of the key gave is
    /// the value of the challenge, character for character. A lookup that
    /// gave no record verifies nothing.
    pub fn verify_txt(&self, records: &Vec<String>) -> (r: bool)
        ensures
            r == answered(records@, self.value@),
    {
        let mut i: usize = 0;
        while i < records.len()
            invariant
                i <= records.len(),
                forall|k: int| 0 <= k < i ==> (#[trigger] records@[k])@ != self.value@,
            decreases records.len() - i,
        {
            if records[i] == self.value {
                return true;
            }
            i = i + 1;
        }
        false
    }
}

/// Issues the challenge for the forge at `hostname`: a new challenge with
/// a random value is kept in the store under its key. Where the store
/// holds a challenge under that key, that challenge stands, and it is the
/// one that is answered.
pub fn issue_challenge(db: &mut Database, domain: &str, hostname: &Url) -> (r: ServiceResult<
    Challenge,
>)
    requires
        old(db).wf(),
        hostname@.host is Some,
    ensures
        final(db).wf(),
        final(db).same_but_challenges(old(db)),
        r matches Ok(c) && {
            let key = challenge_key(domain@, hostname@.host->0);
            &&& c.key@ == key
            &&& final(db).challenges().has(seq![key])
            &&& final(db).challenges().row(seq![key]) == c
            &&& if old(db).challenges().has(seq![key]) {
                *final(db) == *old(db)
            } else {
                &&& final(db).challenges().keys() == old(db).challenges().keys().push(seq![key])
                &&& c.hostname@ == hostname@.href
                &&& c.value@.len() == VALUES_LEN
                &&& forall|i: int| 0 <= i < c.value@.len() ==> is_alphanumeric(#[trigger] c.value@[i])
            }
        },
{
    let txt = TXTChallenge::new(domain, hostname);
    match db.get_dns_challenge(txt.key.as_str()) {
        Ok(standing) => Ok(standing),
        Err(_) => {
            let challenge = Challenge {
                key: txt.key,
                hostname: owned(hostname.as_str()),
                value: txt.value,
            };
            proof {
                old(db).challenges().lemma_len();
            }
            let _ = db.create_dns_challenge(&challenge);
            proof {
                let k = seq![challenge.key@];
                old(db).challenges().lemma_pushed(&db.challenges(), k, challenge);
                assert(db.challenges().map().contains_key(k));
                assert(db.challenges().map()[k] == db.challenges().row(k));
            }
            Ok(challenge)
        },
    }
}

/// How a verification ended.
#[derive(Debug)]
pub enum Verdict {
    /// the hostname is verified: the challenge is consumed, the forge at
    /// `hostname` is to be crawled, and the requester is sent to
    /// `location`
    Verified { hostname: String, location: String },
    /// the hostname is not verified: the challenge stays, and the
    /// requester is sent to `location` to try again
    Retry { location: String },
}

/// Whether the value `value` is among the TXT records `records`.
pub open spec fn answered(records: Seq<String>, value: Seq<char>) -> bool {
    exists|i: int| 0 <= i < records.len() && (#[trigger] records[i])@ == value
}

/// Judges the challenge `challenge` by the TXT records that the lookup of
/// its key gave: verified where one of the records is the value of the
/// challenge, with the forge that is to be crawled and the home page to
/// go to; else to be tried again, on the page of the challenge.
pub fn judge(challenge: &Challenge, pages: &Pages, records: &Vec<String>) -> (v: Verdict)
    ensures
        match v {
            Verdict::Verified { hostname, location } => {
                &&& answered(records@, challenge.value@)
                &&& hostname@ == challenge.hostname@
                &&& location@ == pages.home@
            },
            Verdict::Retry { location } => {
                &&& !answered(records@, challenge.value@)
                &&& location@ == pages.auth.verify@ + "?hostname="@ + challenge.key@
            },
        },
{
    let txt = TXTChallenge { key: challenge.key.clone(), value: challenge.value.clone() };
    if txt.verify_txt(records) {
        Verdict::Verified { hostname: challenge.hostname.clone(), location: owned(pages.home) }
    } else {
        Verdict::Retry { location: pages.auth.verify_get(challenge.key.as_str()) }
    }
}

/// What the verification of the challenge under `key` by the TXT records
/// `records` makes of the store `db0`, and how it ends.
///
/// Where one of the records is the value of the challenge, the challenge
/// is deleted, and the answer names the forge that is to be crawled and
/// the home page. Else the challenge stays, and the answer names the page
/// on which the verification is tried again. Without a challenge under
/// `key` there is nothing to verify, and the store stays as it is.
pub open spec fn verification(
    db0: Database,
    pages: Pages,
    key: Seq<char>,
    records: Seq<String>,
    db1: Database,
    r: ServiceResult<Verdict>,
) -> bool {
    let challenge = db0.challenges().row(seq![key]);
    &&& db1.same_but_challenges(&db0)
    &&& match r {
        Ok(Verdict::Verified { hostname, location }) => {
            &&& db0.challenges().has(seq![key])
            &&& answered(records, challenge.value@)
            &&& hostname@ == challenge.hostname@
            &&& location@ == pages.home@
            &&& !db1.challenges().has(seq![key])
            &&& db1.challenges().keys() == crate::store::without(
                db0.challenges().keys(),
                seq![key],
            )
        },
        Ok(Verdict::Retry { location }) => {
            &&& db0.challenges().has(seq![key])
            &&& !answered(records, challenge.value@)
            &&& location@ == pages.auth.verify@ + "?hostname="@ + key
            &&& db1 == db0
        },
        Err(ServiceError::DBError(_)) => {
            &&& !db0.challenges().has(seq![key])
            &&& db1 == db0
        },
        Err(_) => false,
    }
}

/// Verifies the challenge that the store holds under `key` against the
/// TXT records that the lookup of `key` gave: see `verification`.
pub fn verify_challenge(db: &mut Database, pages: &Pages, key: &str, records: &Vec<String>) -> (r:
    ServiceResult<Verdict>)
    requires
        old(db).wf(),
    ensures
        final(db).wf(),
        verification(*old(db), *pages, key@, records@, *final(db), r),
{
    let challenge = match db.get_dns_challenge(key) {
        Ok(c) => c,
        Err(e) => {
            return Err(ServiceError::from_db(e));
        },
    };
    let verdict = judge(&challenge, pages, records);
    match &verdict {
        Verdict::Verified { hostname, location } => {
            let _ = db.delete_dns_challenge(key);
        },
        Verdict::Retry { location } => {},
    }
    Ok(verdict)
}

/// A hostname is verified at most once: after a verification that
/// succeeded, the challenge is consumed, so that the next verification
/// under the same key, whatever the records, finds nothing to verify and
/// leaves the store as it is.
pub proof fn lemma_verified_once(
    db0: Database,
    pages: Pages,
    key: Seq<char>,
    first_records: Seq<String>,
    db1: Database,
    first: ServiceResult<Verdict>,
    second_records: Seq<String>,
    db2: Database,
    second: ServiceResult<Verdict>,
)
    requires
        verification(db0, pages, key, first_records, db1, first),
        first matches Ok(Verdict::Verified { .. }),
        verification(db1, pages, key, second_records, db2, second),
    ensures
        second is Err,
        db2 == db1,
{
}

} // verus!
