//! A forge for trials: the routes on which it answers, the part of its
//! repositories that a page holds, and the text from which it draws the
//! names of what it serves.

use vstd::prelude::*;
use vstd::string::*;
use crate::text::{
    chars_of, decimal, decimal_of, join2, join3, owned, replace, replaced, split, split_on, texts,
};

verus! {

/// The routes of the forge.
#[derive(Debug)]
pub struct Api {
    /// the search for repositories
    pub repos_search: &'static str,
    /// the topics of a repository, with `{username}` and `{name}` for the
    /// owner and the name of the repository
    pub repo_tags: &'static str,
}

impl Api {
    /// The routes of the forge.
    pub fn new() -> (a: Api)
        ensures
            a.repos_search@ == "/api/v1/repos/search"@,
            a.repo_tags@ == "/api/v1/repos/{username}/{name}/topics"@,
    {
        Api {
            repos_search: "/api/v1/repos/search",
            repo_tags: "/api/v1/repos/{username}/{name}/topics",
        }
    }

    /// The route of the topics of the repository `name` of `username`:
    /// the route with `username` in the place of each `{username}` and
    /// then `name` in the place of each `{name}`.
    pub fn get_tags_url(&self, username: &str, name: &str) -> (r: String)
        ensures
            r@ == replaced(
                replaced(self.repo_tags@, "{username}"@, username@),
                "{name}"@,
                name@,
            ),
    {
        proof {
            reveal_strlit("{username}");
            reveal_strlit("{name}");
        }
        let with_user = replace(self.repo_tags, "{username}", username);
        replace(with_user.as_str(), "{name}", name)
    }
}

/// The part of the repositories that a search asks for.
#[derive(Clone, Copy, Debug, PartialEq, Eq, Structural)]
pub struct OptionalPage {
    /// the number of the part, counted from 0
    pub page: u32,
    /// the repositories per part
    pub limit: u32,
}

impl OptionalPage {
    /// The number of repositories that stand before the part; `None`
    /// where it cannot be counted.
    pub fn offset(&self) -> (r: Option<u32>)
        ensures
            r == if self.page * self.limit <= u32::MAX {
                Some((self.page * self.limit) as u32)
            } else {
                None
            },
    {
        self.page.checked_mul(self.limit)
    }
}

/// The repository whose topics are asked for.
#[derive(Debug)]
pub struct RepositoryPath {
    /// the owner of the repository
    pub username: String,
    /// the name of the repository
    pub name: String,
}

/// The full name of the repository `name` of `username`.
pub fn full_name(username: &str, name: &str) -> (r: String)
    ensures
        r@ == username@ + "/"@ + name@,
{
    join3(username, "/", name)
}

/// The link to the repository `name` of `username` on the forge that
/// answers on `domain` at `port`.
pub fn html_url(domain: &str, port: u32, username: &str, name: &str) -> (r: String)
    ensures
        r@ == "http://"@ + domain@ + ":"@ + decimal(port as nat) + "/"@ + username@ + "/"@ + name@,
{
    let host = join3("http://", domain, ":");
    let at = join3(host.as_str(), decimal_of(port as u64).as_str(), "/");
    let r = join2(at.as_str(), full_name(username, name).as_str());
    assert(r@ =~= "http://"@ + domain@ + ":"@ + decimal(port as nat) + "/"@ + username@ + "/"@
        + name@);
    r
}

/// The number of lines of `txt`: the pieces between its line feeds,
/// without the last piece where that is empty.
pub open spec fn line_count(txt: Seq<char>) -> nat {
    let pieces = split(txt, '\n');
    if pieces.last().len() == 0 {
        (pieces.len() - 1) as nat
    } else {
        pieces.len()
    }
}

/// The line `n` of `txt`: the piece between two line feeds, without the
/// carriage return before the line feed that ends it.
pub open spec fn line_at(txt: Seq<char>, n: int) -> Seq<char> {
    let pieces = split(txt, '\n');
    let piece = pieces[n];
    if n < pieces.len() - 1 && piece.len() > 0 && piece.last() == '\r' {
        piece.drop_last()
    } else {
        piece
    }
}

/// Draws a number below `upper` with `rand::Rng::gen_range` from
/// `rand::thread_rng`. The range must hold a number: the crate panics on
/// an empty range. Which number is drawn is left open.
#[verifier::external_body]
fn get_random_number(upper: u32) -> (r: u32)
    requires
        upper > 0,
    ensures
        r < upper,
{
    ::rand::Rng::gen_range(&mut ::rand::thread_rng(), 0..upper)
}

/// A text from whose lines names are drawn.
#[derive(Debug)]
pub struct TextProcessor {
    txt: String,
    count: usize,
}

/// Every text splits into one piece at least.
pub proof fn lemma_split_nonempty(s: Seq<char>, sep: char, cur: Seq<char>)
    ensures
        crate::text::split_from(s, sep, cur).len() >= 1,
    decreases s.len(),
{
    if s.len() > 0 {
        if s[0] == sep {
            lemma_split_nonempty(s.drop_first(), sep, Seq::empty());
        } else {
            lemma_split_nonempty(s.drop_first(), sep, cur.push(s[0]));
        }
    }
}

impl TextProcessor {
    #[verifier::type_invariant]
    spec fn counted(&self) -> bool {
        self.count == line_count(self.txt@)
    }

    /// The text.
    pub closed spec fn text(&self) -> Seq<char> {
        self.txt@
    }

    /// The text with its lines counted.
    pub fn new(txt: String) -> (t: Self)
        ensures
            t.text() == txt@,
    {
        let pieces = split_on(txt.as_str(), '\n');
        proof {
            lemma_split_nonempty(txt@, '\n', Seq::empty());
        }
        let n = pieces.len();
        assert(texts(pieces@)[n - 1] == pieces@[n - 1]@);
        let count = if pieces[n - 1].as_str().unicode_len() == 0 {
            n - 1
        } else {
            n
        };
        TextProcessor { txt, count }
    }

    /// The number of lines of the text.
    pub fn lines(&self) -> (r: usize)
        ensures
            r == line_count(self.text()),
    {
        proof {
            use_type_invariant(self);
        }
        self.count
    }

    /// The line `n` of the text.
    pub fn line(&self, n: usize) -> (r: String)
        requires
            n < line_count(self.text()),
        ensures
            r@ == line_at(self.text(), n as int),
    {
        let pieces = split_on(self.txt.as_str(), '\n');
        proof {
            lemma_split_nonempty(self.txt@, '\n', Seq::empty());
            assert(texts(pieces@).len() == pieces@.len());
            assert(n < pieces@.len());
            assert(texts(pieces@)[n as int] == pieces@[n as int]@);
        }
        let piece = pieces[n].as_str();
        let v = chars_of(piece);
        let total = pieces.len();
        if n < total - 1 && v.len() > 0 && v[v.len() - 1] == '\r' {
            assert(piece@.drop_last() =~= piece@.subrange(0, v.len() - 1));
            owned(piece.substring_char(0, v.len() - 1))
        } else {
            owned(piece)
        }
    }

    /// A line of the text, drawn at random; `None` where the text has no
    /// line, or more lines than can be drawn from.
    pub fn get_random_shakespeare(&self) -> (r: Option<String>)
        ensures
            r is Some <==> 0 < line_count(self.text()) <= u32::MAX,
            r matches Some(line) ==> exists|n: int|
                0 <= n < line_count(self.text()) && line@ == #[trigger] line_at(self.text(), n),
    {
        proof {
            use_type_invariant(self);
        }
        if self.count == 0 || self.count > u32::MAX as usize {
            return None;
        }
        let n = get_random_number(self.count as u32);
        Some(self.line(n as usize))
    }
}

} // verus!
