//! The configuration that the administrator of a forge publishes in a DNS
//! TXT record: settings of the form `key=value`, with commas between them.

use vstd::prelude::*;
use crate::text::{number, parse_number, same, split, split_on, texts, trim, trimmed};

verus! {

/// How a forge wants to be crawled.
#[derive(Clone, Copy, Debug, PartialEq, Eq, Structural)]
pub struct Configuration {
    /// whether the forge may be crawled
    pub spidering: bool,
    /// the seconds to wait between two requests, if the forge asks for it
    pub rate: Option<u64>,
}

/// One setting of a configuration.
pub enum Setting {
    /// whether the forge may be crawled
    Spidering(bool),
    /// the seconds to wait between two requests
    Rate(u64),
}

/// The setting that `piece` writes: `spidering` with `true` or `false`,
/// or `rate` with a number, each with white space around key and value
/// as one likes. `None` for anything else.
pub open spec fn setting(piece: Seq<char>) -> Option<Setting> {
    let parts = split(piece, '=');
    if parts.len() < 2 {
        None
    } else {
        let key = trimmed(parts[0]);
        let value = trimmed(parts[1]);
        if key == "spidering"@ {
            if value == "false"@ {
                Some(Setting::Spidering(false))
            } else if value == "true"@ {
                Some(Setting::Spidering(true))
            } else {
                None
            }
        } else if key == "rate"@ {
            match number(value) {
                Some(n) => Some(Setting::Rate(n)),
                None => None,
            }
        } else {
            None
        }
    }
}

/// The configuration `c` with the setting `s` applied.
pub open spec fn applied(c: Configuration, s: Setting) -> Configuration {
    match s {
        Setting::Spidering(b) => Configuration { spidering: b, ..c },
        Setting::Rate(n) => Configuration { rate: Some(n), ..c },
    }
}

/// The configuration that the settings `pieces` make of the default, a
/// later setting overriding an earlier; `None` where one of them is no
/// setting.
pub open spec fn configured(pieces: Seq<Seq<char>>) -> Option<Configuration>
    decreases pieces.len(),
{
    if pieces.len() == 0 {
        Some(Configuration { spidering: false, rate: None })
    } else {
        match (configured(pieces.drop_last()), setting(pieces.last())) {
            (Some(c), Some(s)) => Some(applied(c, s)),
            _ => None,
        }
    }
}

impl Default for Configuration {
    /// The default: no crawling, no rate.
    fn default() -> (c: Configuration)
        ensures
            c == (Configuration { spidering: false, rate: None }),
    {
        Configuration { spidering: false, rate: None }
    }
}

impl Configuration {
    /// The configuration that `s` writes, if it writes one.
    pub open spec fn spec_parse(s: Seq<char>) -> Option<Configuration> {
        configured(split(s, ','))
    }

    fn parse_inner(piece: &str) -> (r: Option<Setting>)
        ensures
            r == setting(piece@),
    {
        let parts = split_on(piece, '=');
        if parts.len() < 2 {
            return None;
        }
        assert(texts(parts@)[0] == parts@[0]@ && texts(parts@)[1] == parts@[1]@);
        let key = trim(parts[0].as_str());
        let value = trim(parts[1].as_str());
        if same(key, "spidering") {
            if same(value, "false") {
                Some(Setting::Spidering(false))
            } else if same(value, "true") {
                Some(Setting::Spidering(true))
            } else {
                None
            }
        } else if same(key, "rate") {
            match parse_number(value) {
                Some(n) => Some(Setting::Rate(n)),
                None => None,
            }
        } else {
            None
        }
    }

    /// Reads a configuration; `None` where `s` writes none.
    pub fn try_parse(s: &str) -> (r: Option<Configuration>)
        ensures
            r == Self::spec_parse(s@),
    {
        let pieces = split_on(s, ',');
        let ghost all = texts(pieces@);
        let mut config = Configuration { spidering: false, rate: None };
        let mut i: usize = 0;
        assert(all.take(0) =~= Seq::<Seq<char>>::empty());
        while i < pieces.len()
            invariant
                all == texts(pieces@),
                all == split(s@, ','),
                i <= pieces.len(),
                configured(all.take(i as int)) == Some(config),
            decreases pieces.len() - i,
        {
            proof {
                assert(all.take(i + 1).drop_last() =~= all.take(i as int));
                assert(all.take(i + 1).last() == pieces@[i as int]@);
                lemma_configured_prefix(all, i + 1);
            }
            match Self::parse_inner(pieces[i].as_str()) {
                Some(Setting::Spidering(b)) => {
                    config.spidering = b;
                },
                Some(Setting::Rate(n)) => {
                    config.rate = Some(n);
                },
                None => {
                    return None;
                },
            }
            i = i + 1;
        }
        assert(all.take(pieces.len() as int) =~= all);
        Some(config)
    }

    /// Reads a configuration that `s` writes.
    pub fn parse(s: &str) -> (c: Configuration)
        requires
            Self::spec_parse(s@) is Some,
        ensures
            Some(c) == Self::spec_parse(s@),
    {
        Self::try_parse(s).unwrap()
    }
}

/// Where the first settings make no configuration, all of them make none.
pub proof fn lemma_configured_prefix(pieces: Seq<Seq<char>>, k: int)
    requires
        0 <= k <= pieces.len(),
    ensures
        configured(pieces.take(k)) is None ==> configured(pieces) is None,
    decreases pieces.len() - k,
{
    if k == pieces.len() {
        assert(pieces.take(k) =~= pieces);
    } else {
        lemma_configured_prefix(pieces, k + 1);
        assert(pieces.take(k + 1).drop_last() =~= pieces.take(k));
    }
}

} // verus!
