//! Text helpers: comparison, trimming, substring search, splitting, joining
//! and decimal numbers, each stated over sequences of characters.

use vstd::prelude::*;
use vstd::string::*;

verus! {

/// Whether two string slices hold the same characters.
pub fn same(a: &str, b: &str) -> (r: bool)
    ensures
        r == (a@ == b@),
{
    let x = a.to_owned();
    let y = b.to_owned();
    x == y
}

/// The characters of `s`, in order.
pub fn chars_of(s: &str) -> (v: Vec<char>)
    ensures
        v@ == s@,
{
    let mut v: Vec<char> = Vec::new();
    for c in it: s.chars()
        invariant
            it.seq() == s@,
            v@ == it.seq().take(it.index() as int),
    {
        v.push(c);
    }
    v
}

/// An owned copy of `s`.
pub fn owned(s: &str) -> (r: String)
    ensures
        r@ == s@,
{
    s.to_owned()
}

/// What an optional string slice holds.
pub open spec fn opt_str(o: Option<&str>) -> Option<Seq<char>> {
    match o {
        Some(s) => Some(s@),
        None => None,
    }
}

/// What an optional string holds.
pub open spec fn opt_string(o: Option<String>) -> Option<Seq<char>> {
    match o {
        Some(s) => Some(s@),
        None => None,
    }
}

/// An owned copy of an optional string slice.
pub fn owned_opt(o: Option<&str>) -> (r: Option<String>)
    ensures
        opt_string(r) == opt_str(o),
{
    match o {
        Some(s) => Some(s.to_owned()),
        None => None,
    }
}

/// Owned copies of string slices.
pub fn owned_all(v: &Vec<&str>) -> (r: Vec<String>)
    ensures
        r.len() == v.len(),
        forall|i: int| 0 <= i < v.len() ==> r@[i]@ == v@[i]@,
{
    let mut r: Vec<String> = Vec::new();
    let mut i: usize = 0;
    while i < v.len()
        invariant
            i <= v.len(),
            r.len() == i,
            forall|k: int| 0 <= k < i ==> r@[k]@ == v@[k]@,
        decreases v.len() - i,
    {
        r.push(v[i].to_owned());
        i = i + 1;
    }
    r
}

/// Copies of strings.
pub fn copy_all(v: &Vec<String>) -> (r: Vec<String>)
    ensures
        r@ == v@,
{
    let mut r: Vec<String> = Vec::new();
    let mut i: usize = 0;
    while i < v.len()
        invariant
            i <= v.len(),
            r@ == v@.take(i as int),
        decreases v.len() - i,
    {
        r.push(v[i].clone());
        assert(v@.take(i + 1) =~= v@.take(i as int).push(v@[i as int]));
        i = i + 1;
    }
    assert(v@.take(v.len() as int) =~= v@);
    r
}

/// `a` followed by `b`.
pub fn join2(a: &str, b: &str) -> (r: String)
    ensures
        r@ == a@ + b@,
{
    let mut r = a.to_owned();
    r.append(b);
    r
}

/// `a`, `b` and `c` one after the other.
pub fn join3(a: &str, b: &str, c: &str) -> (r: String)
    ensures
        r@ == a@ + b@ + c@,
{
    let mut r = a.to_owned();
    r.append(b);
    r.append(c);
    r
}

/// White space as Unicode defines it (the property `White_Space`).
pub open spec fn is_space(c: char) -> bool {
    let n = c as u32;
    ||| 0x09 <= n <= 0x0D
    ||| n == 0x20
    ||| n == 0x85
    ||| n == 0xA0
    ||| n == 0x1680
    ||| 0x2000 <= n <= 0x200A
    ||| n == 0x2028
    ||| n == 0x2029
    ||| n == 0x202F
    ||| n == 0x205F
    ||| n == 0x3000
}

/// Whether `c` is white space.
pub fn is_whitespace(c: char) -> (r: bool)
    ensures
        r == is_space(c),
{
    let n: u32 = c as u32;
    (0x09 <= n && n <= 0x0D) || n == 0x20 || n == 0x85 || n == 0xA0 || n == 0x1680 || (0x2000 <= n
        && n <= 0x200A) || n == 0x2028 || n == 0x2029 || n == 0x202F || n == 0x205F || n == 0x3000
}

/// `s` without the white space at its two ends.
pub open spec fn trimmed(s: Seq<char>) -> Seq<char>
    decreases s.len(),
{
    if s.len() == 0 {
        s
    } else if is_space(s[0]) {
        trimmed(s.drop_first())
    } else if is_space(s.last()) {
        trimmed(s.drop_last())
    } else {
        s
    }
}

/// Removes the white space at the two ends of `s`.
pub fn trim(s: &str) -> (r: &str)
    ensures
        r@ == trimmed(s@),
{
    let v = chars_of(s);
    let n = v.len();
    let mut i: usize = 0;
    assert(s@.subrange(0, n as int) =~= s@);
    while i < n && is_whitespace(v[i])
        invariant
            v@ == s@,
            n == v.len(),
            i <= n,
            trimmed(s@) == trimmed(s@.subrange(i as int, n as int)),
        decreases n - i,
    {
        assert(s@.subrange(i as int, n as int).drop_first() =~= s@.subrange(i + 1, n as int));
        i = i + 1;
    }
    let mut j: usize = n;
    while j > i && is_whitespace(v[j - 1])
        invariant
            v@ == s@,
            n == v.len(),
            i <= j <= n,
            i < n ==> !is_space(s@[i as int]),
            trimmed(s@) == trimmed(s@.subrange(i as int, j as int)),
        decreases j,
    {
        assert(s@.subrange(i as int, j as int).drop_last() =~= s@.subrange(i as int, j - 1));
        j = j - 1;
    }
    s.substring_char(i, j)
}

/// Whether `needle` stands in `hay` at position `i`.
pub open spec fn occurs_at(hay: Seq<char>, needle: Seq<char>, i: int) -> bool {
    0 <= i && i + needle.len() <= hay.len() && hay.subrange(i, i + needle.len()) == needle
}

/// Whether `needle` stands somewhere in `hay`.
pub open spec fn contains(hay: Seq<char>, needle: Seq<char>) -> bool {
    exists|i: int| occurs_at(hay, needle, i)
}

fn matches_at(hay: &Vec<char>, needle: &Vec<char>, i: usize) -> (r: bool)
    requires
        i + needle.len() <= hay.len(),
    ensures
        r == occurs_at(hay@, needle@, i as int),
{
    let m = needle.len();
    let mut j: usize = 0;
    while j < m
        invariant
            m == needle.len(),
            i + m <= hay.len(),
            j <= m,
            forall|t: int| 0 <= t < j ==> hay@[i + t] == needle@[t],
        decreases m - j,
    {
        if hay[i + j] != needle[j] {
            assert(hay@.subrange(i as int, i + m)[j as int] == hay@[i + j]);
            return false;
        }
        j = j + 1;
    }
    assert(hay@.subrange(i as int, i + m) =~= needle@);
    true
}

/// Whether `needle` stands somewhere in `hay`.
pub fn has(hay: &str, needle: &str) -> (r: bool)
    ensures
        r == contains(hay@, needle@),
{
    let h = chars_of(hay);
    let n = chars_of(needle);
    if n.len() > h.len() {
        return false;
    }
    let last = h.len() - n.len();
    let mut i: usize = 0;
    loop
        invariant
            h@ == hay@,
            n@ == needle@,
            n.len() <= h.len(),
            last == h.len() - n.len(),
            i <= last,
            forall|k: int| 0 <= k < i ==> !occurs_at(h@, n@, k),
        decreases last - i,
    {
        if matches_at(&h, &n, i) {
            return true;
        }
        if i == last {
            return false;
        }
        i = i + 1;
    }
}

/// Whether `s` begins with `prefix`.
pub open spec fn begins_with(s: Seq<char>, prefix: Seq<char>) -> bool {
    prefix.len() <= s.len() && s.take(prefix.len() as int) == prefix
}

/// Whether `s` begins with `prefix`.
pub fn starts_with(s: &str, prefix: &str) -> (r: bool)
    ensures
        r == begins_with(s@, prefix@),
{
    let h = chars_of(s);
    let n = chars_of(prefix);
    if n.len() > h.len() {
        return false;
    }
    let r = matches_at(&h, &n, 0);
    assert(h@.subrange(0, n@.len() as int) =~= h@.take(n@.len() as int));
    r
}

/// `s` with `to` in the place of each occurrence of `from`, the
/// occurrences taken from the left, none overlapping another.
pub open spec fn replaced(s: Seq<char>, from: Seq<char>, to: Seq<char>) -> Seq<char>
    decreases s.len(),
{
    if from.len() == 0 || s.len() < from.len() {
        s
    } else if s.take(from.len() as int) == from {
        to + replaced(s.skip(from.len() as int), from, to)
    } else {
        seq![s[0]] + replaced(s.drop_first(), from, to)
    }
}

/// Puts `to` in the place of each occurrence of `from` in `s`.
pub fn replace(s: &str, from: &str, to: &str) -> (r: String)
    requires
        from@.len() > 0,
    ensures
        r@ == replaced(s@, from@, to@),
{
    let v = chars_of(s);
    let f = chars_of(from);
    let n = v.len();
    let m = f.len();
    let mut out = String::new();
    let mut start: usize = 0;
    let mut i: usize = 0;
    proof {
        assert(s@.skip(0) =~= s@);
        assert(out@ + s@.subrange(0, 0) + replaced(s@, from@, to@) =~= replaced(s@, from@, to@));
    }
    while i < n && n - i >= m
        invariant
            v@ == s@,
            f@ == from@,
            n == v.len(),
            m == f.len(),
            m > 0,
            start <= i <= n,
            replaced(s@, from@, to@) == out@ + s@.subrange(start as int, i as int) + replaced(
                s@.skip(i as int),
                from@,
                to@,
            ),
        decreases n - i,
    {
        let ghost rest = s@.skip(i as int);
        let ghost pending = s@.subrange(start as int, i as int);
        let ghost done = out@;
        proof {
            assert(rest.take(m as int) =~= s@.subrange(i as int, i + m));
            assert(rest.len() >= m);
        }
        if matches_at(&v, &f, i) {
            out.append(s.substring_char(start, i));
            out.append(to);
            proof {
                assert(rest.skip(m as int) =~= s@.skip(i + m));
                assert(s@.subrange(i + m, i + m) =~= Seq::<char>::empty());
                assert(done + pending + (to@ + replaced(s@.skip(i + m), from@, to@)) =~= (done
                    + pending + to@) + s@.subrange(i + m, i + m) + replaced(
                    s@.skip(i + m),
                    from@,
                    to@,
                ));
            }
            i = i + m;
            start = i;
        } else {
            proof {
                assert(rest.drop_first() =~= s@.skip(i + 1));
                assert(rest[0] == s@[i as int]);
                assert(done + pending + (seq![s@[i as int]] + replaced(
                    s@.skip(i + 1),
                    from@,
                    to@,
                )) =~= done + s@.subrange(start as int, i + 1) + replaced(
                    s@.skip(i + 1),
                    from@,
                    to@,
                ));
            }
            i = i + 1;
        }
    }
    proof {
        assert(s@.subrange(start as int, i as int) + s@.skip(i as int) =~= s@.subrange(
            start as int,
            n as int,
        ));
        assert(out@ + s@.subrange(start as int, i as int) + s@.skip(i as int) =~= out@
            + s@.subrange(start as int, n as int));
    }
    out.append(s.substring_char(start, n));
    out
}

/// Whether the character `c` stands in `s`.
pub fn has_char(s: &str, c: char) -> (r: bool)
    ensures
        r == s@.contains(c),
{
    let v = chars_of(s);
    let mut i: usize = 0;
    while i < v.len()
        invariant
            v@ == s@,
            i <= v.len(),
            forall|k: int| 0 <= k < i ==> s@[k] != c,
        decreases v.len() - i,
    {
        if v[i] == c {
            return true;
        }
        i = i + 1;
    }
    false
}

/// The character sequences that the strings of `v` hold.
pub open spec fn texts(v: Seq<String>) -> Seq<Seq<char>> {
    Seq::new(v.len(), |i: int| v[i]@)
}

/// The pieces of `s` between occurrences of `sep`, given that `cur` was
/// read since the last separator.
pub open spec fn split_from(s: Seq<char>, sep: char, cur: Seq<char>) -> Seq<Seq<char>>
    decreases s.len(),
{
    if s.len() == 0 {
        seq![cur]
    } else if s[0] == sep {
        seq![cur] + split_from(s.drop_first(), sep, Seq::empty())
    } else {
        split_from(s.drop_first(), sep, cur.push(s[0]))
    }
}

/// The pieces of `s` between occurrences of `sep`: one more piece than
/// there are separators, empty pieces included.
pub open spec fn split(s: Seq<char>, sep: char) -> Seq<Seq<char>> {
    split_from(s, sep, Seq::empty())
}

/// Splits `s` at every occurrence of `sep`.
pub fn split_on(s: &str, sep: char) -> (parts: Vec<String>)
    ensures
        texts(parts@) == split(s@, sep),
{
    let v = chars_of(s);
    let n = v.len();
    let mut parts: Vec<String> = Vec::new();
    let mut start: usize = 0;
    let mut i: usize = 0;
    assert(s@.skip(0) =~= s@);
    assert(s@.subrange(0, 0) =~= Seq::<char>::empty());
    assert(texts(parts@) + split(s@, sep) =~= split(s@, sep));
    while i < n
        invariant
            v@ == s@,
            n == v.len(),
            start <= i <= n,
            split(s@, sep) == texts(parts@) + split_from(
                s@.skip(i as int),
                sep,
                s@.subrange(start as int, i as int),
            ),
        decreases n - i,
    {
        let ghost before = texts(parts@);
        let ghost cur = s@.subrange(start as int, i as int);
        assert(s@.skip(i as int).drop_first() =~= s@.skip(i + 1));
        assert(s@.skip(i as int)[0] == s@[i as int]);
        if v[i] == sep {
            parts.push(owned(s.substring_char(start, i)));
            start = i + 1;
            assert(texts(parts@) =~= before + seq![cur]);
            assert(s@.subrange(start as int, start as int) =~= Seq::<char>::empty());
            assert(before + (seq![cur] + split_from(s@.skip(i + 1), sep, Seq::empty()))
                =~= (before + seq![cur]) + split_from(s@.skip(i + 1), sep, Seq::empty()));
        } else {
            assert(cur.push(s@[i as int]) =~= s@.subrange(start as int, i + 1));
        }
        i = i + 1;
    }
    let ghost before = texts(parts@);
    parts.push(owned(s.substring_char(start, n)));
    assert(texts(parts@) =~= before + seq![s@.subrange(start as int, n as int)]);
    parts
}

/// The members of `words` one after the other with `sep` between each two.
pub open spec fn joined(words: Seq<Seq<char>>, sep: Seq<char>) -> Seq<char>
    decreases words.len(),
{
    if words.len() == 0 {
        Seq::empty()
    } else if words.len() == 1 {
        words[0]
    } else {
        joined(words.drop_last(), sep) + sep + words.last()
    }
}

/// Joins `words` with `sep` between each two of them.
pub fn join(words: &Vec<String>, sep: &str) -> (r: String)
    ensures
        r@ == joined(texts(words@), sep@),
{
    let mut r = String::new();
    let mut i: usize = 0;
    assert(texts(words@).take(0) =~= Seq::<Seq<char>>::empty());
    while i < words.len()
        invariant
            i <= words.len(),
            r@ == joined(texts(words@).take(i as int), sep@),
        decreases words.len() - i,
    {
        let ghost all = texts(words@);
        assert(all.take(i + 1).drop_last() =~= all.take(i as int));
        assert(all.take(i + 1).last() == words@[i as int]@);
        if i > 0 {
            r.append(sep);
        } else {
            assert(r@ + words@[i as int]@ =~= words@[i as int]@);
        }
        r.append(words[i].as_str());
        i = i + 1;
    }
    assert(texts(words@).take(words.len() as int) =~= texts(words@));
    r
}

/// The decimal digit that stands for `d`.
pub open spec fn digit(d: nat) -> char {
    if d == 0 {
        '0'
    } else if d == 1 {
        '1'
    } else if d == 2 {
        '2'
    } else if d == 3 {
        '3'
    } else if d == 4 {
        '4'
    } else if d == 5 {
        '5'
    } else if d == 6 {
        '6'
    } else if d == 7 {
        '7'
    } else if d == 8 {
        '8'
    } else {
        '9'
    }
}

/// The decimal numeral of `n`, without leading zeros.
pub open spec fn decimal(n: nat) -> Seq<char>
    decreases n,
{
    if n < 10 {
        seq![digit(n)]
    } else {
        decimal(n / 10).push(digit(n % 10))
    }
}

fn digit_text(d: u64) -> (r: &'static str)
    requires
        d < 10,
    ensures
        r@ == seq![digit(d as nat)],
{
    proof {
        reveal_strlit("0");
        reveal_strlit("1");
        reveal_strlit("2");
        reveal_strlit("3");
        reveal_strlit("4");
        reveal_strlit("5");
        reveal_strlit("6");
        reveal_strlit("7");
        reveal_strlit("8");
        reveal_strlit("9");
    }
    let r = if d == 0 {
        "0"
    } else if d == 1 {
        "1"
    } else if d == 2 {
        "2"
    } else if d == 3 {
        "3"
    } else if d == 4 {
        "4"
    } else if d == 5 {
        "5"
    } else if d == 6 {
        "6"
    } else if d == 7 {
        "7"
    } else if d == 8 {
        "8"
    } else {
        "9"
    };
    assert(r@ =~= seq![digit(d as nat)]);
    r
}

/// Appends the decimal numeral of `n` to `out`.
pub fn push_decimal(out: &mut String, n: u64)
    ensures
        final(out)@ == old(out)@ + decimal(n as nat),
    decreases n,
{
    if n >= 10 {
        push_decimal(out, n / 10);
    }
    out.append(digit_text(n % 10));
    assert(final(out)@ =~= old(out)@ + decimal(n as nat));
}

/// The decimal numeral of `n`.
pub fn decimal_of(n: u64) -> (r: String)
    ensures
        r@ == decimal(n as nat),
{
    let mut r = String::new();
    push_decimal(&mut r, n);
    assert(Seq::<char>::empty() + decimal(n as nat) =~= decimal(n as nat));
    r
}

/// The value of a decimal digit, if `c` is one.
pub open spec fn digit_value(c: char) -> Option<nat> {
    if '0' <= c <= '9' {
        Some((c as u32 - '0' as u32) as nat)
    } else {
        None
    }
}

/// The value of a run of decimal digits; `None` where a character is no
/// digit. The empty run has the value 0.
pub open spec fn digits_value(s: Seq<char>) -> Option<nat>
    decreases s.len(),
{
    if s.len() == 0 {
        Some(0)
    } else {
        match (digits_value(s.drop_last()), digit_value(s.last())) {
            (Some(high), Some(low)) => Some(high * 10 + low),
            _ => None,
        }
    }
}

/// The number that `s` writes: an optional `+`, then at least one decimal
/// digit, with a value that fits in 64 bits.
pub open spec fn number(s: Seq<char>) -> Option<u64> {
    let body = if s.len() > 0 && s[0] == '+' {
        s.drop_first()
    } else {
        s
    };
    if body.len() == 0 {
        None
    } else {
        match digits_value(body) {
            Some(v) => if v <= u64::MAX {
                Some(v as u64)
            } else {
                None
            },
            None => None,
        }
    }
}

proof fn lemma_digits_prefix(s: Seq<char>, k: int)
    requires
        0 <= k <= s.len(),
    ensures
        digits_value(s.take(k)) is None ==> digits_value(s) is None,
        digits_value(s) matches Some(v) ==> digits_value(s.take(k)) matches Some(p) && p <= v,
    decreases s.len() - k,
{
    if k == s.len() {
        assert(s.take(k) =~= s);
    } else {
        lemma_digits_prefix(s, k + 1);
        assert(s.take(k + 1).drop_last() =~= s.take(k));
    }
}

/// Reads a number as `number` defines it.
pub fn parse_number(s: &str) -> (r: Option<u64>)
    ensures
        r == number(s@),
{
    let v = chars_of(s);
    let n = v.len();
    let first: usize = if n > 0 && v[0] == '+' {
        1
    } else {
        0
    };
    if first == n {
        return None;
    }
    let ghost body = if s@.len() > 0 && s@[0] == '+' {
        s@.drop_first()
    } else {
        s@
    };
    assert(body =~= s@.subrange(first as int, n as int));
    let mut acc: u64 = 0;
    let mut i: usize = first;
    assert(body.take(0) =~= Seq::<char>::empty());
    while i < n
        invariant
            v@ == s@,
            n == v.len(),
            first <= i <= n,
            first < n,
            body == s@.subrange(first as int, n as int),
            body == if s@.len() > 0 && s@[0] == '+' {
                s@.drop_first()
            } else {
                s@
            },
            digits_value(body.take(i - first)) == Some(acc as nat),
        decreases n - i,
    {
        let c = v[i];
        proof {
            lemma_digits_prefix(body, i - first + 1);
            assert(body.take(i - first + 1).drop_last() =~= body.take(i - first));
            assert(body.take(i - first + 1).last() == c);
        }
        if c < '0' || c > '9' {
            return None;
        }
        let d: u64 = (c as u32 - '0' as u32) as u64;
        if acc > (u64::MAX - d) / 10 {
            return None;
        }
        acc = acc * 10 + d;
        i = i + 1;
    }
    assert(body.take(n - first) =~= body);
    Some(acc)
}

} // verus!
