//! Absolute URLs, parsed and normalised by the `url` crate and held as the
//! plain text that the rest of the library reads.

use vstd::prelude::*;
use vstd::string::*;
use crate::errors::ServiceError;
use crate::text::opt_str;

verus! {

#[verifier::external_type_specification]
#[verifier::external_body]
pub struct ExParseError(::url::ParseError);

/// The longest text, in characters, that the library takes for a URL or
/// for a part of one. The `url` crate counts the bytes of a serialisation
/// in 32 bits, and its setters fail on one that has outgrown them; a text
/// of this length stays below that even where every character is written
/// as twelve bytes.
pub const MAX_TEXT: usize = 50_000_000;

/// The serialisation that `url::Url::parse` gives for `input`; `None`
/// where `input` is no absolute URL.
pub uninterp spec fn url_parsed(input: Seq<char>) -> Option<Seq<char>>;

/// The URL that `input` writes, serialised; `None` where `input` is no
/// absolute URL. A text of more than `MAX_TEXT` characters is taken for
/// none.
pub open spec fn url_href(input: Seq<char>) -> Option<Seq<char>> {
    if input.len() <= MAX_TEXT {
        url_parsed(input)
    } else {
        None
    }
}

/// The serialisation of the URL that `input` parses to, once `set_path`
/// has put `path` in the place of its path, then `set_query` has put
/// `query` in the place of its query, then `set_fragment` has put
/// `fragment` in the place of its fragment.
pub uninterp spec fn url_replaced(
    input: Seq<char>,
    path: Seq<char>,
    query: Option<Seq<char>>,
    fragment: Option<Seq<char>>,
) -> Seq<char>;

/// The text that identifies the site of the URL that `input` writes: the
/// URL with an empty path, without query and without fragment.
pub open spec fn url_origin(input: Seq<char>) -> Seq<char> {
    url_replaced(input, Seq::empty(), None, None)
}

/// The host, as `url::Url::host_str` gives it, of the URL that `input`
/// parses to.
pub uninterp spec fn url_host(input: Seq<char>) -> Option<Seq<char>>;

/// The scheme, as `url::Url::scheme` gives it, of the URL that `input`
/// parses to.
pub uninterp spec fn url_scheme(input: Seq<char>) -> Seq<char>;

/// Parses `input` with `url::Url::parse` and hands back what `scheme`
/// gives. It answers exactly where parsing succeeds; the scheme is named
/// `url_scheme`.
#[verifier::external_body]
fn parse_scheme(input: &str) -> (r: Option<String>)
    ensures
        r is Some <==> url_parsed(input@) is Some,
        r matches Some(scheme) ==> scheme@ == url_scheme(input@),
{
    match ::url::Url::parse(input) {
        Ok(u) => Some(u.scheme().to_owned()),
        Err(_) => None,
    }
}

/// The port, as `url::Url::port` gives it, of the URL that `input` parses
/// to: the port that the URL names, unless it is the default of its
/// scheme.
pub uninterp spec fn url_port(input: Seq<char>) -> Option<u16>;

/// Parses `input` with `url::Url::parse` and hands back what `port`
/// gives. The port is named `url_port`.
#[verifier::external_body]
fn parse_port(input: &str) -> (r: Option<u16>)
    ensures
        r == url_port(input@),
{
    match ::url::Url::parse(input) {
        Ok(u) => u.port(),
        Err(_) => None,
    }
}

/// Calls `url::Url::parse` and hands back the serialisation of the URL
/// (`as_str`), or the crate's error. Nothing is claimed of the text
/// beyond its name, `url_parsed`.
#[verifier::external_body]
fn parse_href(input: &str) -> (r: Result<String, ::url::ParseError>)
    ensures
        r matches Ok(href) ==> url_parsed(input@) == Some(href@),
        r is Err ==> url_parsed(input@) is None,
{
    match ::url::Url::parse(input) {
        Ok(u) => Ok(u.as_str().to_owned()),
        Err(e) => Err(e),
    }
}

/// Parses `input` with `url::Url::parse`, calls `set_path(path)`, then
/// `set_query(query)`, then `set_fragment(fragment)` on the URL, and
/// hands back the serialisation. It answers exactly where parsing
/// succeeds; the text is named `url_replaced`. The texts are bounded
/// because the setters fail on a serialisation that has outgrown 32 bits.
#[verifier::external_body]
fn parse_replaced(input: &str, path: &str, query: Option<&str>, fragment: Option<&str>) -> (r:
    Option<String>)
    requires
        input@.len() <= MAX_TEXT,
        path@.len() <= MAX_TEXT,
        query matches Some(q) ==> q@.len() <= MAX_TEXT,
        fragment matches Some(f) ==> f@.len() <= MAX_TEXT,
    ensures
        r is Some <==> url_parsed(input@) is Some,
        r matches Some(t) ==> t@ == url_replaced(input@, path@, opt_str(query), opt_str(fragment)),
{
    match ::url::Url::parse(input) {
        Ok(mut u) => {
            u.set_path(path);
            u.set_query(query);
            u.set_fragment(fragment);
            Some(u.as_str().to_owned())
        },
        Err(_) => None,
    }
}

/// Parses `input` with `url::Url::parse` and hands back what `host_str`
/// gives: the host where the URL has one. The host is named `url_host`.
#[verifier::external_body]
fn parse_host(input: &str) -> (r: Option<String>)
    ensures
        r matches Some(host) ==> url_host(input@) == Some(host@),
        r is None ==> url_host(input@) is None,
{
    match ::url::Url::parse(input) {
        Ok(u) => match u.host_str() {
            Some(h) => Some(h.to_owned()),
            None => None,
        },
        Err(_) => None,
    }
}

/// The serialisation of the URL that `input` parses to, once `set_path`
/// has put `path` in the place of its path.
pub uninterp spec fn url_with_path(input: Seq<char>, path: Seq<char>) -> Seq<char>;

/// Parses `input` with `url::Url::parse`, replaces the path with
/// `set_path(path)` and hands back the serialisation. It answers exactly
/// where parsing succeeds; the text is named `url_with_path`. Both texts
/// are bounded because `set_path` fails on a serialisation that has
/// outgrown 32 bits.
#[verifier::external_body]
fn parse_with_path(input: &str, path: &str) -> (r: Option<String>)
    requires
        input@.len() <= MAX_TEXT,
        path@.len() <= MAX_TEXT,
    ensures
        r is Some <==> url_parsed(input@) is Some,
        r matches Some(t) ==> t@ == url_with_path(input@, path@),
{
    match ::url::Url::parse(input) {
        Ok(mut u) => {
            u.set_path(path);
            Some(u.as_str().to_owned())
        },
        Err(_) => None,
    }
}

/// What a parsed URL holds.
pub struct UrlView {
    /// the whole URL, serialised
    pub href: Seq<char>,
    /// scheme and authority alone: the URL without path, query and fragment
    pub origin: Seq<char>,
    /// the host, where there is one
    pub host: Option<Seq<char>>,
    /// the scheme
    pub scheme: Seq<char>,
    /// the port, where the URL names one that is not the default
    pub port: Option<u16>,
}

/// An absolute URL.
#[derive(Debug)]
pub struct Url {
    source: String,
    href: String,
    origin: String,
    host: Option<String>,
    scheme: String,
    port: Option<u16>,
}

impl View for Url {
    type V = UrlView;

    closed spec fn view(&self) -> UrlView {
        UrlView {
            href: self.href@,
            origin: self.origin@,
            host: match self.host {
                Some(h) => Some(h@),
                None => None,
            },
            scheme: self.scheme@,
            port: self.port,
        }
    }
}

impl Clone for Url {
    fn clone(&self) -> (r: Self)
        ensures
            r@ == self@,
            r.source() == self.source(),
    {
        proof {
            use_type_invariant(self);
        }
        Url {
            source: self.source.clone(),
            href: self.href.clone(),
            origin: self.origin.clone(),
            host: self.host.clone(),
            scheme: self.scheme.clone(),
            port: self.port,
        }
    }
}

impl Url {
    #[verifier::type_invariant]
    spec fn parsed(&self) -> bool {
        &&& url_href(self.source@) == Some(self.href@)
        &&& url_origin(self.source@) == self.origin@
        &&& url_host(self.source@) == match self.host {
            Some(h) => Some(h@),
            None => None,
        }
        &&& url_scheme(self.source@) == self.scheme@
        &&& url_port(self.source@) == self.port
    }

    /// The text that the URL was parsed from.
    pub closed spec fn source(&self) -> Seq<char> {
        self.source@
    }

    /// Parses an absolute URL. It succeeds exactly where `input` has at
    /// most `MAX_TEXT` characters and the `url` crate parses it, and holds
    /// what that crate makes of it. Any other text is reported as no URL.
    pub fn parse(input: &str) -> (r: Result<Url, ServiceError>)
        ensures
            r is Ok <==> url_href(input@) is Some,
            r matches Err(e) ==> e is NotAUrl,
            r matches Ok(u) ==> u.source() == input@ && u@ == (UrlView {
                href: url_href(input@)->0,
                origin: url_origin(input@),
                host: url_host(input@),
                scheme: url_scheme(input@),
                port: url_port(input@),
            }),
    {
        if input.unicode_len() > MAX_TEXT {
            return Err(ServiceError::NotAUrl);
        }
        match parse_href(input) {
            Ok(href) => {
                proof {
                    reveal_strlit("");
                }
                assert(""@ =~= Seq::<char>::empty());
                let host = parse_host(input);
                let origin = parse_replaced(input, "", None, None).unwrap();
                let scheme = parse_scheme(input).unwrap();
                let port = parse_port(input);
                Ok(Url { source: input.to_owned(), href, origin, host, scheme, port })
            },
            Err(e) => Err(ServiceError::from_parse_error(e)),
        }
    }

    /// The text that the URL was parsed from; the URL holds what the `url`
    /// crate makes of that text.
    pub fn source_str(&self) -> (r: &str)
        ensures
            r@ == self.source(),
            url_href(r@) == Some(self@.href),
            url_origin(r@) == self@.origin,
            url_host(r@) == self@.host,
            url_scheme(r@) == self@.scheme,
            url_port(r@) == self@.port,
    {
        proof {
            use_type_invariant(self);
        }
        self.source.as_str()
    }

    /// The whole URL as text.
    pub fn as_str(&self) -> (r: &str)
        ensures
            r@ == self@.href,
    {
        self.href.as_str()
    }

    /// The URL without path, query and fragment, as text.
    pub fn origin(&self) -> (r: &str)
        ensures
            r@ == self@.origin,
    {
        self.origin.as_str()
    }

    /// The scheme of the URL.
    pub fn scheme(&self) -> (r: &str)
        ensures
            r@ == self@.scheme,
    {
        self.scheme.as_str()
    }

    /// The port, where the URL names one that is not the default.
    pub fn port(&self) -> (r: Option<u16>)
        ensures
            r == self@.port,
    {
        self.port
    }

    /// The host, where the URL has one.
    pub fn host_str(&self) -> (r: Option<&str>)
        ensures
            r is Some <==> self@.host is Some,
            r matches Some(h) ==> h@ == self@.host->0,
    {
        match &self.host {
            Some(h) => Some(h.as_str()),
            None => None,
        }
    }

    /// The URL with `path` in the place of its path, as text. `None`
    /// where the path has more than `MAX_TEXT` characters.
    pub fn with_path(&self, path: &str) -> (r: Option<String>)
        ensures
            self.source().len() <= MAX_TEXT,
            r is Some <==> path@.len() <= MAX_TEXT,
            r matches Some(t) ==> t@ == url_with_path(self.source(), path@),
    {
        proof {
            use_type_invariant(self);
        }
        if path.unicode_len() > MAX_TEXT {
            return None;
        }
        parse_with_path(self.source.as_str(), path)
    }

    /// The URL with `path`, `query` and `fragment` in the place of its
    /// path, its query and its fragment, as text. `None` where one of
    /// them has more than `MAX_TEXT` characters.
    pub fn replaced(&self, path: &str, query: Option<&str>, fragment: Option<&str>) -> (r: Option<
        String,
    >)
        ensures
            r is Some <==> path@.len() <= MAX_TEXT && (query matches Some(q) ==> q@.len()
                <= MAX_TEXT) && (fragment matches Some(f) ==> f@.len() <= MAX_TEXT),
            r matches Some(t) ==> t@ == url_replaced(
                self.source(),
                path@,
                opt_str(query),
                opt_str(fragment),
            ),
    {
        proof {
            use_type_invariant(self);
        }
        let long_query = match query {
            Some(q) => q.unicode_len() > MAX_TEXT,
            None => false,
        };
        let long_fragment = match fragment {
            Some(f) => f.unicode_len() > MAX_TEXT,
            None => false,
        };
        if path.unicode_len() > MAX_TEXT || long_query || long_fragment {
            return None;
        }
        parse_replaced(self.source.as_str(), path, query, fragment)
    }

    /// Whether the two URLs hold the same.
    pub fn same_url(&self, other: &Url) -> (r: bool)
        ensures
            r == (self@ == other@),
    {
        let hosts = match (&self.host, &other.host) {
            (Some(a), Some(b)) => *a == *b,
            (None, None) => true,
            _ => false,
        };
        let ports = match (self.port, other.port) {
            (Some(a), Some(b)) => a == b,
            (None, None) => true,
            _ => false,
        };
        let r = self.href == other.href && self.origin == other.origin && hosts && self.scheme
            == other.scheme && ports;
        proof {
            assert(hosts == (self@.host == other@.host));
            assert(self@.href == self.href@ && self@.origin == self.origin@);
            assert(other@.href == other.href@ && other@.origin == other.origin@);
            assert(self@.scheme == self.scheme@ && other@.scheme == other.scheme@);
        }
        r
    }

    /// Whether the two URLs have the same serialisation.
    pub fn same_as(&self, other: &Url) -> (r: bool)
        ensures
            r == (self@.href == other@.href),
    {
        self.href == other.href
    }
}

/// The text that identifies a forge: its URL with scheme and authority
/// only, without path, query and fragment.
pub fn clean_url(url: &Url) -> (r: String)
    ensures
        r@ == url@.origin,
{
    url.origin.clone()
}

/// The host of `url`.
pub fn get_hostname(url: &Url) -> (r: &str)
    requires
        url@.host is Some,
    ensures
        r@ == url@.host->0,
{
    url.host.as_ref().unwrap().as_str()
}

} // verus!
