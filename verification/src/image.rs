//! Parsing of container-image references.
//!
//! A raw reference such as `http://localhost:8000/hello/world:v1` is decomposed
//! into registry host, optional port, repository path, and tag and/or digest.
//! Scheme prefixes are tolerated and stripped, never retained. A reference
//! without an explicit host is placed under the well-known public registry,
//! and a single-segment repository gains the `library/` prefix.

use vstd::prelude::*;

verus! {

// ---------------------------------------------------------------------------
// Character classes
// ---------------------------------------------------------------------------

/// Characters accepted in a registry host name.
pub open spec fn is_host_char(c: char) -> bool {
    ('a' <= c && c <= 'z') || ('0' <= c && c <= '9') || c == '.' || c == '-'
}

/// Characters accepted in a repository path.
pub open spec fn is_repo_char(c: char) -> bool {
    ('a' <= c && c <= 'z') || ('0' <= c && c <= '9') || c == '.' || c == '_' || c == '-'
        || c == '/'
}

/// Characters accepted in a tag.
pub open spec fn is_tag_char(c: char) -> bool {
    ('a' <= c && c <= 'z') || ('A' <= c && c <= 'Z') || ('0' <= c && c <= '9') || c == '.'
        || c == '_' || c == '-'
}

/// Decimal digits.
pub open spec fn is_digit(c: char) -> bool {
    '0' <= c && c <= '9'
}

/// Characters accepted in a digest algorithm name.
pub open spec fn is_algo_char(c: char) -> bool {
    ('a' <= c && c <= 'z') || ('0' <= c && c <= '9')
}

/// Lower-case hexadecimal digits.
pub open spec fn is_hex_char(c: char) -> bool {
    is_digit(c) || ('a' <= c && c <= 'f')
}

fn host_char(c: char) -> (r: bool)
    ensures
        r == is_host_char(c),
{
    ('a' <= c && c <= 'z') || ('0' <= c && c <= '9') || c == '.' || c == '-'
}

fn repo_char(c: char) -> (r: bool)
    ensures
        r == is_repo_char(c),
{
    ('a' <= c && c <= 'z') || ('0' <= c && c <= '9') || c == '.' || c == '_' || c == '-'
        || c == '/'
}

fn tag_char(c: char) -> (r: bool)
    ensures
        r == is_tag_char(c),
{
    ('a' <= c && c <= 'z') || ('A' <= c && c <= 'Z') || ('0' <= c && c <= '9') || c == '.'
        || c == '_' || c == '-'
}

fn algo_char(c: char) -> (r: bool)
    ensures
        r == is_algo_char(c),
{
    ('a' <= c && c <= 'z') || ('0' <= c && c <= '9')
}

fn hex_char(c: char) -> (r: bool)
    ensures
        r == is_hex_char(c),
{
    ('0' <= c && c <= '9') || ('a' <= c && c <= 'f')
}

// ---------------------------------------------------------------------------
// Finding characters
// ---------------------------------------------------------------------------

/// Index of the first occurrence of `c` in `s`, or `s.len()` if absent.
pub open spec fn first_index_of(s: Seq<char>, c: char) -> int
    decreases s.len(),
{
    if s.len() == 0 {
        0
    } else if s[0] == c {
        0
    } else {
        1 + first_index_of(s.skip(1), c)
    }
}

/// Index of the last occurrence of `c` in `s`, or `-1` if absent.
pub open spec fn last_index_of(s: Seq<char>, c: char) -> int
    decreases s.len(),
{
    if s.len() == 0 {
        -1
    } else if s[s.len() - 1] == c {
        s.len() - 1
    } else {
        last_index_of(s.drop_last(), c)
    }
}

pub proof fn lemma_first_index_props(s: Seq<char>, c: char)
    ensures
        0 <= first_index_of(s, c) <= s.len(),
        first_index_of(s, c) < s.len() ==> s[first_index_of(s, c)] == c,
        forall|j: int| 0 <= j < first_index_of(s, c) ==> s[j] != c,
    decreases s.len(),
{
    if s.len() > 0 && s[0] != c {
        lemma_first_index_props(s.skip(1), c);
        assert forall|j: int| 0 <= j < first_index_of(s, c) implies s[j] != c by {
            if j > 0 {
                assert(s.skip(1)[j - 1] == s[j]);
            }
        }
    }
}

pub proof fn lemma_first_index_char(s: Seq<char>, c: char, i: int)
    requires
        0 <= i <= s.len(),
        forall|j: int| 0 <= j < i ==> s[j] != c,
        i < s.len() ==> s[i] == c,
    ensures
        first_index_of(s, c) == i,
    decreases i,
{
    if i > 0 {
        lemma_first_index_char(s.skip(1), c, i - 1);
    }
}

pub proof fn lemma_last_index_props(s: Seq<char>, c: char)
    ensures
        -1 <= last_index_of(s, c) < s.len(),
        last_index_of(s, c) >= 0 ==> s[last_index_of(s, c)] == c,
        forall|j: int| last_index_of(s, c) < j < s.len() ==> s[j] != c,
    decreases s.len(),
{
    if s.len() > 0 && s[s.len() - 1] != c {
        lemma_last_index_props(s.drop_last(), c);
        assert forall|j: int| last_index_of(s, c) < j < s.len() implies s[j] != c by {
            if j < s.len() - 1 {
                assert(s.drop_last()[j] == s[j]);
            }
        }
    }
}

pub proof fn lemma_last_index_char(s: Seq<char>, c: char, i: int)
    requires
        -1 <= i < s.len(),
        forall|j: int| i < j < s.len() ==> s[j] != c,
        i >= 0 ==> s[i] == c,
    ensures
        last_index_of(s, c) == i,
    decreases s.len(),
{
    if s.len() > 0 && i < s.len() - 1 {
        lemma_last_index_char(s.drop_last(), c, i);
    }
}

/// Index of the first occurrence of `c` in `s`, or the length if absent.
pub fn find_char(s: &str, c: char) -> (r: usize)
    ensures
        r as int == first_index_of(s@, c),
        r <= s@.len(),
        r < s@.len() ==> s@[r as int] == c,
        forall|j: int| 0 <= j < r ==> s@[j] != c,
{
    let n = s.unicode_len();
    let mut i: usize = 0;
    while i < n
        invariant
            i <= n,
            n == s@.len(),
            forall|j: int| 0 <= j < i ==> s@[j] != c,
        decreases n - i,
    {
        if s.get_char(i) == c {
            proof {
                lemma_first_index_char(s@, c, i as int);
            }
            return i;
        }
        i += 1;
    }
    proof {
        lemma_first_index_char(s@, c, n as int);
    }
    n
}

/// Index of the last occurrence of `c` in `s`, or `None` if absent.
fn rfind_char(s: &str, c: char) -> (r: Option<usize>)
    ensures
        match r {
            Some(i) => last_index_of(s@, c) == i as int && i < s@.len(),
            None => last_index_of(s@, c) == -1,
        },
{
    let n = s.unicode_len();
    let mut i: usize = n;
    while i > 0
        invariant
            i <= n,
            n == s@.len(),
            forall|j: int| i <= j < n ==> s@[j] != c,
        decreases i,
    {
        i -= 1;
        if s.get_char(i) == c {
            proof {
                lemma_last_index_char(s@, c, i as int);
            }
            return Some(i);
        }
    }
    proof {
        lemma_last_index_char(s@, c, -1);
    }
    None
}

/// Character-wise string equality.
pub fn str_eq(a: &str, b: &str) -> (r: bool)
    ensures
        r == (a@ == b@),
{
    let na = a.unicode_len();
    let nb = b.unicode_len();
    if na != nb {
        return false;
    }
    let mut i: usize = 0;
    while i < na
        invariant
            i <= na,
            na == a@.len(),
            na == b@.len(),
            forall|j: int| 0 <= j < i ==> a@[j] == b@[j],
        decreases na - i,
    {
        if a.get_char(i) != b.get_char(i) {
            return false;
        }
        i += 1;
    }
    proof {
        assert(a@ =~= b@);
    }
    true
}

// ---------------------------------------------------------------------------
// Decimal numbers (ports)
// ---------------------------------------------------------------------------

/// Numeric value of a decimal digit character.
pub open spec fn digit_val(c: char) -> int {
    c as u32 - 48
}

/// Value of a decimal digit string (most significant digit first).
pub open spec fn dec_value(s: Seq<char>) -> int
    decreases s.len(),
{
    if s.len() == 0 {
        0
    } else {
        dec_value(s.drop_last()) * 10 + digit_val(s.last())
    }
}

/// Digit character for a value below ten.
pub open spec fn digit_char(d: int) -> char {
    if d == 0 {
        '0'
    } else if d == 1 {
        '1'
    } else if d == 2 {
        '2'
    } else if d == 3 {
        '3'
    } else if d == 4 {
        '4'
    } else if d == 5 {
        '5'
    } else if d == 6 {
        '6'
    } else if d == 7 {
        '7'
    } else if d == 8 {
        '8'
    } else {
        '9'
    }
}

/// Decimal representation of a non-negative number, without leading zeros.
pub open spec fn dec_repr(n: int) -> Seq<char>
    decreases n,
{
    if n < 10 {
        seq![digit_char(n)]
    } else {
        dec_repr(n / 10).push(digit_char(n % 10))
    }
}

/// A valid port string: non-empty digits whose value lies in `1..=65535`.
pub open spec fn valid_port_str(s: Seq<char>) -> bool {
    &&& s.len() > 0
    &&& forall|i: int| 0 <= i < s.len() ==> is_digit(s[i])
    &&& 1 <= dec_value(s) <= 65535
}

pub proof fn lemma_dec_repr(n: int)
    requires
        0 <= n <= 65535,
    ensures
        dec_repr(n).len() >= 1,
        forall|i: int| 0 <= i < dec_repr(n).len() ==> is_digit(dec_repr(n)[i]),
        dec_value(dec_repr(n)) == n,
    decreases n,
{
    if n < 10 {
        let s = seq![digit_char(n)];
        assert(s.drop_last() =~= Seq::<char>::empty());
        assert(s.last() == digit_char(n));
        assert(dec_value(s.drop_last()) == 0);
        assert(digit_val(digit_char(n)) == n);
        assert(dec_value(dec_repr(n)) == n);
    } else {
        lemma_dec_repr(n / 10);
        let r = dec_repr(n / 10);
        let c = digit_char(n % 10);
        assert(r.push(c).drop_last() =~= r);
        assert(r.push(c).last() == c);
        assert(digit_val(c) == n % 10);
        assert forall|i: int| 0 <= i < dec_repr(n).len() implies is_digit(dec_repr(n)[i]) by {
            if i < r.len() {
                assert(r.push(c)[i] == r[i]);
            }
        }
    }
}

/// Parses a decimal port string; `Some` exactly on valid port strings.
fn parse_port(s: &str) -> (r: Option<u16>)
    ensures
        match r {
            Some(p) => valid_port_str(s@) && p as int == dec_value(s@) && p >= 1,
            None => !valid_port_str(s@),
        },
{
    let n = s.unicode_len();
    if n == 0 {
        return None;
    }
    let mut val: u32 = 0;
    let mut i: usize = 0;
    while i < n
        invariant
            i <= n,
            n == s@.len(),
            forall|j: int| 0 <= j < i ==> is_digit(s@[j]),
            dec_value(s@.take(i as int)) <= 65535 ==> val == dec_value(s@.take(i as int)),
            dec_value(s@.take(i as int)) > 65535 ==> val == 65536,
            val <= 65536,
        decreases n - i,
    {
        let c = s.get_char(i);
        if !('0' <= c && c <= '9') {
            return None;
        }
        let d: u32 = c as u32 - 48;
        proof {
            assert(s@.take(i + 1).drop_last() =~= s@.take(i as int));
            assert(s@.take(i + 1).last() == s@[i as int]);
        }
        if val > 6553 || (val == 6553 && d > 5) {
            val = 65536;
        } else {
            val = val * 10 + d;
        }
        i += 1;
    }
    proof {
        assert(s@.take(n as int) =~= s@);
    }
    if 1 <= val && val <= 65535 {
        Some(val as u16)
    } else {
        None
    }
}

/// Appends the decimal representation of `n` to `out`.
fn push_dec(out: &mut String, n: u16)
    ensures
        final(out)@ == old(out)@ + dec_repr(n as int),
    decreases n,
{
    if n >= 10 {
        push_dec(out, n / 10);
    }
    let d: u16 = n % 10;
    let ds = digit_str(d);
    out.append(ds);
    proof {
        if n >= 10 {
            assert(old(out)@ + dec_repr(n as int) =~= old(out)@ + dec_repr(n as int / 10)
                + seq![digit_char(n as int % 10)]);
        }
    }
}

/// The one-character string for a digit value below ten.
fn digit_str(d: u16) -> (r: &'static str)
    requires
        d < 10,
    ensures
        r@ =~= seq![digit_char(d as int)],
{
    proof {
        reveal_strlit("0");
        reveal_strlit("1");
        reveal_strlit("2");
        reveal_strlit("3");
        reveal_strlit("4");
        reveal_strlit("5");
        reveal_strlit("6");
        reveal_strlit("7");
        reveal_strlit("8");
        reveal_strlit("9");
    }
    match d {
        0 => "0",
        1 => "1",
        2 => "2",
        3 => "3",
        4 => "4",
        5 => "5",
        6 => "6",
        7 => "7",
        8 => "8",
        _ => "9",
    }
}

// ---------------------------------------------------------------------------
// The reference model
// ---------------------------------------------------------------------------

/// Mathematical model of a parsed image reference.
pub struct RefData {
    pub host: Seq<char>,
    pub port: Option<u16>,
    pub repo: Seq<char>,
    pub tag: Option<Seq<char>>,
    pub digest: Option<Seq<char>>,
}

/// A parsed image reference: registry host, optional port, repository path,
/// and tag and/or digest. At least one of tag and digest is always present.
#[derive(Clone, Debug, PartialEq, Eq)]
pub struct ImageReference {
    pub registry_host: String,
    pub port: Option<u16>,
    pub repository: String,
    pub tag: Option<String>,
    pub digest: Option<String>,
}

impl View for ImageReference {
    type V = RefData;

    open spec fn view(&self) -> RefData {
        RefData {
            host: self.registry_host@,
            port: self.port,
            repo: self.repository@,
            tag: match self.tag {
                Some(t) => Some(t@),
                None => None,
            },
            digest: match self.digest {
                Some(d) => Some(d@),
                None => None,
            },
        }
    }
}

/// The only way a raw reference fails to parse.
#[derive(Clone, Copy, Debug, PartialEq, Eq)]
pub enum ParseError {
    Malformed,
}

/// The scheme prefix `http://` as characters.
pub open spec fn http_scheme() -> Seq<char> {
    seq!['h', 't', 't', 'p', ':', '/', '/']
}

/// The scheme prefix `https://` as characters.
pub open spec fn https_scheme() -> Seq<char> {
    seq!['h', 't', 't', 'p', 's', ':', '/', '/']
}

/// The characters of `localhost`.
pub open spec fn localhost_seq() -> Seq<char> {
    seq!['l', 'o', 'c', 'a', 'l', 'h', 'o', 's', 't']
}

/// The well-known public registry host used when a reference names none.
pub open spec fn default_host() -> Seq<char> {
    seq![
        'r', 'e', 'g', 'i', 's', 't', 'r', 'y', '-', '1', '.', 'd', 'o', 'c', 'k', 'e', 'r',
        '.', 'i', 'o',
    ]
}

/// The characters of the default tag `latest`.
pub open spec fn latest_seq() -> Seq<char> {
    seq!['l', 'a', 't', 'e', 's', 't']
}

/// The characters of the implicit top-level repository prefix `library/`.
pub open spec fn library_prefix() -> Seq<char> {
    seq!['l', 'i', 'b', 'r', 'a', 'r', 'y', '/']
}

pub open spec fn has_http(s: Seq<char>) -> bool {
    s.len() >= 7 && s.take(7) == http_scheme()
}

pub open spec fn has_https(s: Seq<char>) -> bool {
    s.len() >= 8 && s.take(8) == https_scheme()
}

/// Whether `s` starts with a scheme prefix that parsing strips.
pub open spec fn has_scheme(s: Seq<char>) -> bool {
    has_http(s) || has_https(s)
}

/// `s` with any leading scheme prefix removed.
pub open spec fn body_of(s: Seq<char>) -> Seq<char> {
    if has_https(s) {
        s.skip(8)
    } else if has_http(s) {
        s.skip(7)
    } else {
        s
    }
}

/// A segment before the first `/` is taken as a registry host only when it
/// contains a dot or a colon or equals `localhost`.
pub open spec fn is_host_like(seg: Seq<char>) -> bool {
    seg.contains('.') || seg.contains(':') || seg == localhost_seq()
}

/// A valid host name: non-empty, host characters only.
pub open spec fn valid_host(s: Seq<char>) -> bool {
    s.len() > 0 && forall|i: int| 0 <= i < s.len() ==> is_host_char(s[i])
}

/// A valid repository path: non-empty, repository characters only.
pub open spec fn valid_repo(s: Seq<char>) -> bool {
    s.len() > 0 && forall|i: int| 0 <= i < s.len() ==> is_repo_char(s[i])
}

/// A valid tag: non-empty, tag characters only.
pub open spec fn valid_tag(s: Seq<char>) -> bool {
    s.len() > 0 && forall|i: int| 0 <= i < s.len() ==> is_tag_char(s[i])
}

/// A valid digest: `algorithm:hex` with both parts non-empty.
pub open spec fn valid_digest(s: Seq<char>) -> bool {
    let ci = first_index_of(s, ':');
    &&& 1 <= ci
    &&& ci < s.len() - 1
    &&& forall|i: int| 0 <= i < ci ==> is_algo_char(s[i])
    &&& forall|i: int| ci < i < s.len() ==> is_hex_char(s[i])
}

/// Splits `host[:port]`; `Some` exactly when host and port are valid.
pub open spec fn split_host_port(seg: Seq<char>) -> Option<(Seq<char>, Option<u16>)> {
    let ci = first_index_of(seg, ':');
    if 0 <= ci && ci < seg.len() {
        let h = seg.take(ci);
        let p = seg.skip(ci + 1);
        if valid_host(h) && valid_port_str(p) {
            Some((h, Some(dec_value(p) as u16)))
        } else {
            None
        }
    } else {
        if valid_host(seg) {
            Some((seg, None))
        } else {
            None
        }
    }
}

/// Splits `repository[:tag][@digest]`; `Some` exactly when all parts are
/// valid. The tag separator is the first colon after the last slash.
pub open spec fn split_path(t: Seq<char>) -> Option<(Seq<char>, Option<Seq<char>>, Option<
    Seq<char>,
>)> {
    let ai = first_index_of(t, '@');
    let rt = if 0 <= ai && ai < t.len() {
        t.take(ai)
    } else {
        t
    };
    let dg: Option<Seq<char>> = if 0 <= ai && ai < t.len() {
        Some(t.skip(ai + 1))
    } else {
        None
    };
    let ls = last_index_of(rt, '/');
    let ci = ls + 1 + first_index_of(rt.skip(ls + 1), ':');
    let repo = if ls + 1 <= ci && ci < rt.len() {
        rt.take(ci)
    } else {
        rt
    };
    let tg: Option<Seq<char>> = if ls + 1 <= ci && ci < rt.len() {
        Some(rt.skip(ci + 1))
    } else {
        None
    };
    if valid_repo(repo) && (tg is Some ==> valid_tag(tg->0)) && (dg is Some ==> valid_digest(
        dg->0,
    )) {
        Some((repo, tg, dg))
    } else {
        None
    }
}

/// The tag defaults to `latest` only when neither tag nor digest is given.
pub open spec fn norm_tag(tg: Option<Seq<char>>, dg: Option<Seq<char>>) -> Option<Seq<char>> {
    if tg is Some {
        tg
    } else if dg is Some {
        None
    } else {
        Some(latest_seq())
    }
}

/// A single-segment repository is placed under `library/`.
pub open spec fn with_library(repo: Seq<char>) -> Seq<char> {
    if repo.contains('/') {
        repo
    } else {
        library_prefix() + repo
    }
}

/// A repository candidate that looks like a bare host (a dot, or `localhost`)
/// is rejected rather than read as a default-registry repository.
pub open spec fn is_hostish_repo(repo: Seq<char>) -> bool {
    repo.contains('.') || repo == localhost_seq()
}

/// The parse function, as a mathematical map from raw characters to the
/// reference model; `None` exactly on malformed input.
pub open spec fn spec_parse(s: Seq<char>) -> Option<RefData> {
    let scheme = has_scheme(s);
    let body = body_of(s);
    if body.len() == 0 {
        None
    } else {
        let si = first_index_of(body, '/');
        if 0 <= si && si < body.len() {
            let seg = body.take(si);
            let rest = body.skip(si + 1);
            if is_host_like(seg) {
                match split_host_port(seg) {
                    Some((h, p)) => match split_path(rest) {
                        Some((repo, tg, dg)) => Some(
                            RefData {
                                host: h,
                                port: p,
                                repo: repo,
                                tag: norm_tag(tg, dg),
                                digest: dg,
                            },
                        ),
                        None => None,
                    },
                    None => None,
                }
            } else if scheme {
                None
            } else {
                match split_path(body) {
                    Some((repo, tg, dg)) => Some(
                        RefData {
                            host: default_host(),
                            port: None,
                            repo: with_library(repo),
                            tag: norm_tag(tg, dg),
                            digest: dg,
                        },
                    ),
                    None => None,
                }
            }
        } else {
            match split_path(body) {
                Some((repo, tg, dg)) => if is_hostish_repo(repo) || scheme {
                    None
                } else {
                    Some(
                        RefData {
                            host: default_host(),
                            port: None,
                            repo: with_library(repo),
                            tag: norm_tag(tg, dg),
                            digest: dg,
                        },
                    )
                },
                None => None,
            }
        }
    }
}

/// View of an optional string as an optional character sequence.
pub open spec fn opt_view(o: Option<String>) -> Option<Seq<char>> {
    match o {
        Some(s) => Some(s@),
        None => None,
    }
}

// ---------------------------------------------------------------------------
// The executable parser
// ---------------------------------------------------------------------------

fn starts_with_http(s: &str) -> (r: bool)
    ensures
        r == has_http(s@),
{
    let n = s.unicode_len();
    if n < 7 {
        return false;
    }
    let r = s.get_char(0) == 'h' && s.get_char(1) == 't' && s.get_char(2) == 't' && s.get_char(3)
        == 'p' && s.get_char(4) == ':' && s.get_char(5) == '/' && s.get_char(6) == '/';
    proof {
        if r {
            assert(s@.take(7) =~= http_scheme());
        } else {
            if s@.take(7) == http_scheme() {
                assert(s@[0] == s@.take(7)[0]);
                assert(s@[1] == s@.take(7)[1]);
                assert(s@[2] == s@.take(7)[2]);
                assert(s@[3] == s@.take(7)[3]);
                assert(s@[4] == s@.take(7)[4]);
                assert(s@[5] == s@.take(7)[5]);
                assert(s@[6] == s@.take(7)[6]);
            }
        }
    }
    r
}

fn starts_with_https(s: &str) -> (r: bool)
    ensures
        r == has_https(s@),
{
    let n = s.unicode_len();
    if n < 8 {
        return false;
    }
    let r = s.get_char(0) == 'h' && s.get_char(1) == 't' && s.get_char(2) == 't' && s.get_char(3)
        == 'p' && s.get_char(4) == 's' && s.get_char(5) == ':' && s.get_char(6) == '/'
        && s.get_char(7) == '/';
    proof {
        if r {
            assert(s@.take(8) =~= https_scheme());
        } else {
            if s@.take(8) == https_scheme() {
                assert(s@[0] == s@.take(8)[0]);
                assert(s@[1] == s@.take(8)[1]);
                assert(s@[2] == s@.take(8)[2]);
                assert(s@[3] == s@.take(8)[3]);
                assert(s@[4] == s@.take(8)[4]);
                assert(s@[5] == s@.take(8)[5]);
                assert(s@[6] == s@.take(8)[6]);
                assert(s@[7] == s@.take(8)[7]);
            }
        }
    }
    r
}

/// Strips a leading scheme prefix, reporting whether one was present.
fn strip_scheme(s: &str) -> (r: (bool, &str))
    ensures
        r.0 == has_scheme(s@),
        r.1@ == body_of(s@),
{
    let n = s.unicode_len();
    if starts_with_https(s) {
        (true, s.substring_char(8, n))
    } else if starts_with_http(s) {
        (true, s.substring_char(7, n))
    } else {
        (false, s)
    }
}

fn check_host(s: &str) -> (r: bool)
    ensures
        r == valid_host(s@),
{
    let n = s.unicode_len();
    if n == 0 {
        return false;
    }
    let mut i: usize = 0;
    while i < n
        invariant
            i <= n,
            n == s@.len(),
            forall|j: int| 0 <= j < i ==> is_host_char(s@[j]),
        decreases n - i,
    {
        if !host_char(s.get_char(i)) {
            return false;
        }
        i += 1;
    }
    true
}

fn check_repo(s: &str) -> (r: bool)
    ensures
        r == valid_repo(s@),
{
    let n = s.unicode_len();
    if n == 0 {
        return false;
    }
    let mut i: usize = 0;
    while i < n
        invariant
            i <= n,
            n == s@.len(),
            forall|j: int| 0 <= j < i ==> is_repo_char(s@[j]),
        decreases n - i,
    {
        if !repo_char(s.get_char(i)) {
            return false;
        }
        i += 1;
    }
    true
}

fn check_tag(s: &str) -> (r: bool)
    ensures
        r == valid_tag(s@),
{
    let n = s.unicode_len();
    if n == 0 {
        return false;
    }
    let mut i: usize = 0;
    while i < n
        invariant
            i <= n,
            n == s@.len(),
            forall|j: int| 0 <= j < i ==> is_tag_char(s@[j]),
        decreases n - i,
    {
        if !tag_char(s.get_char(i)) {
            return false;
        }
        i += 1;
    }
    true
}

fn check_digest(s: &str) -> (r: bool)
    ensures
        r == valid_digest(s@),
{
    let n = s.unicode_len();
    let ci = find_char(s, ':');
    if ci < 1 || ci >= n || ci == n - 1 {
        return false;
    }
    let mut i: usize = 0;
    while i < ci
        invariant
            i <= ci,
            ci < n,
            n == s@.len(),
            ci as int == first_index_of(s@, ':'),
            ci >= 1,
            ci < n - 1,
            forall|j: int| 0 <= j < i ==> is_algo_char(s@[j]),
        decreases ci - i,
    {
        if !algo_char(s.get_char(i)) {
            return false;
        }
        i += 1;
    }
    let mut k: usize = ci + 1;
    while k < n
        invariant
            ci < k <= n,
            n == s@.len(),
            ci as int == first_index_of(s@, ':'),
            ci >= 1,
            ci < n - 1,
            forall|j: int| ci < j < k ==> is_hex_char(s@[j]),
        decreases n - k,
    {
        if !hex_char(s.get_char(k)) {
            return false;
        }
        k += 1;
    }
    true
}

/// Whether a leading segment is recognizable as a registry host.
fn host_like(seg: &str) -> (r: bool)
    ensures
        r == is_host_like(seg@),
{
    let n = seg.unicode_len();
    let di = find_char(seg, '.');
    if di < n {
        return true;
    }
    let ci = find_char(seg, ':');
    if ci < n {
        return true;
    }
    proof {
        reveal_strlit("localhost");
        assert("localhost"@ =~= localhost_seq());
        assert(!seg@.contains('.'));
        assert(!seg@.contains(':'));
    }
    str_eq(seg, "localhost")
}

/// Whether a repository candidate without a slash looks like a bare host.
fn hostish_repo(repo: &str) -> (r: bool)
    ensures
        r == is_hostish_repo(repo@),
{
    let n = repo.unicode_len();
    let di = find_char(repo, '.');
    if di < n {
        return true;
    }
    proof {
        reveal_strlit("localhost");
        assert("localhost"@ =~= localhost_seq());
        assert(!repo@.contains('.'));
    }
    str_eq(repo, "localhost")
}

/// Splits a `host[:port]` segment into owned parts.
fn split_host_port_str(seg: &str) -> (r: Option<(String, Option<u16>)>)
    ensures
        r is Some <==> split_host_port(seg@) is Some,
        r is Some ==> (split_host_port(seg@)->0).0 == (r->0).0@ && (split_host_port(seg@)->0).1
            == (r->0).1,
{
    let n = seg.unicode_len();
    let ci = find_char(seg, ':');
    if ci < n {
        let h = seg.substring_char(0, ci);
        let p = seg.substring_char(ci + 1, n);
        proof {
            assert(h@ =~= seg@.take(ci as int));
            assert(p@ =~= seg@.skip(ci + 1));
        }
        if !check_host(h) {
            return None;
        }
        match parse_port(p) {
            Some(port) => Some((h.to_owned(), Some(port))),
            None => None,
        }
    } else {
        if check_host(seg) {
            Some((seg.to_owned(), None))
        } else {
            None
        }
    }
}

/// Splits `repository[:tag][@digest]` into owned parts.
fn split_path_str(t: &str) -> (r: Option<(String, Option<String>, Option<String>)>)
    ensures
        r is Some <==> split_path(t@) is Some,
        r is Some ==> (split_path(t@)->0).0 == (r->0).0@ && (split_path(t@)->0).1 == opt_view((r->0).1)
            && (split_path(t@)->0).2 == opt_view((r->0).2),
{
    let n = t.unicode_len();
    let ai = find_char(t, '@');
    let rt: &str = if ai < n {
        t.substring_char(0, ai)
    } else {
        t
    };
    let dg: Option<&str> = if ai < n {
        Some(t.substring_char(ai + 1, n))
    } else {
        None
    };
    proof {
        if ai < n {
            assert(rt@ =~= t@.take(ai as int));
            assert(dg->0@ =~= t@.skip(ai + 1));
        }
    }
    let rn = rt.unicode_len();
    let start: usize = match rfind_char(rt, '/') {
        Some(i) => i + 1,
        None => 0,
    };
    let sub = rt.substring_char(start, rn);
    proof {
        assert(sub@ =~= rt@.skip(start as int));
    }
    let rel = find_char(sub, ':');
    let ci = start + rel;
    let repo: &str = if ci < rn {
        rt.substring_char(0, ci)
    } else {
        rt
    };
    let tg: Option<&str> = if ci < rn {
        Some(rt.substring_char(ci + 1, rn))
    } else {
        None
    };
    proof {
        if ci < rn {
            assert(repo@ =~= rt@.take(ci as int));
            assert(tg->0@ =~= rt@.skip(ci + 1));
        }
    }
    if !check_repo(repo) {
        return None;
    }
    let tag_s: Option<String> = match tg {
        Some(ts) => {
            if check_tag(ts) {
                Some(ts.to_owned())
            } else {
                return None;
            }
        },
        None => None,
    };
    let dig_s: Option<String> = match dg {
        Some(ds) => {
            if check_digest(ds) {
                Some(ds.to_owned())
            } else {
                return None;
            }
        },
        None => None,
    };
    Some((repo.to_owned(), tag_s, dig_s))
}

/// Parses a raw image reference.
///
/// Succeeds exactly on the strings that `spec_parse` accepts, and then returns
/// exactly the reference that `spec_parse` gives; every malformed input is
/// reported as `ParseError::Malformed`.
pub fn parse(raw: &str) -> (r: Result<ImageReference, ParseError>)
    ensures
        match r {
            Ok(img) => spec_parse(raw@) == Some(img@) && wf_ref(img@),
            Err(e) => spec_parse(raw@) is None && e == ParseError::Malformed,
        },
{
    let (scheme, body) = strip_scheme(raw);
    let n = body.unicode_len();
    if n == 0 {
        return Err(ParseError::Malformed);
    }
    let si = find_char(body, '/');
    let r: Result<ImageReference, ParseError> = if si < n {
        let seg = body.substring_char(0, si);
        let rest = body.substring_char(si + 1, n);
        proof {
            assert(seg@ =~= body@.take(si as int));
            assert(rest@ =~= body@.skip(si + 1));
        }
        if host_like(seg) {
            match split_host_port_str(seg) {
                Some((host, port)) => match split_path_str(rest) {
                    Some((repo, tg, dg)) => Ok(assemble(host, port, repo, tg, dg)),
                    None => Err(ParseError::Malformed),
                },
                None => Err(ParseError::Malformed),
            }
        } else if scheme {
            Err(ParseError::Malformed)
        } else {
            match split_path_str(body) {
                Some((repo, tg, dg)) => Ok(assemble_default(repo, tg, dg)),
                None => Err(ParseError::Malformed),
            }
        }
    } else {
        match split_path_str(body) {
            Some((repo, tg, dg)) => {
                if hostish_repo(repo.as_str()) || scheme {
                    Err(ParseError::Malformed)
                } else {
                    Ok(assemble_default(repo, tg, dg))
                }
            },
            None => Err(ParseError::Malformed),
        }
    };
    proof {
        if r is Ok {
            lemma_parse_wf(raw@);
        }
    }
    r
}

/// Builds the reference for an explicit `host[:port]`.
fn assemble(host: String, port: Option<u16>, repo: String, tg: Option<String>, dg: Option<
    String,
>) -> (img: ImageReference)
    ensures
        img@ == (RefData {
            host: host@,
            port: port,
            repo: repo@,
            tag: norm_tag(opt_view(tg), opt_view(dg)),
            digest: opt_view(dg),
        }),
{
    let tag: Option<String> = match (&tg, &dg) {
        (Option::None, Option::None) => {
            proof {
                reveal_strlit("latest");
                assert("latest"@ =~= latest_seq());
            }
            Some(String::from_str("latest"))
        },
        _ => tg,
    };
    ImageReference { registry_host: host, port: port, repository: repo, tag: tag, digest: dg }
}

/// Builds the reference for a repository under the default registry.
fn assemble_default(repo: String, tg: Option<String>, dg: Option<String>) -> (img: ImageReference)
    ensures
        img@ == (RefData {
            host: default_host(),
            port: None,
            repo: with_library(repo@),
            tag: norm_tag(opt_view(tg), opt_view(dg)),
            digest: opt_view(dg),
        }),
{
    proof {
        reveal_strlit("registry-1.docker.io");
        assert("registry-1.docker.io"@ =~= default_host());
    }
    let host = String::from_str("registry-1.docker.io");
    let rn = repo.as_str().unicode_len();
    let full_repo: String = if find_char(repo.as_str(), '/') < rn {
        repo
    } else {
        proof {
            reveal_strlit("library/");
            assert("library/"@ =~= library_prefix());
            assert(!repo@.contains('/'));
        }
        let mut pre = String::from_str("library/");
        pre.append(repo.as_str());
        pre
    };
    assemble(host, None, full_repo, tg, dg)
}

/// Every reference that parsing accepts is well formed.
pub proof fn lemma_parse_wf(s: Seq<char>)
    requires
        spec_parse(s) is Some,
    ensures
        wf_ref(spec_parse(s)->0),
{
    let body = body_of(s);
    let si = first_index_of(body, '/');
    lemma_first_index_props(body, '/');
    if 0 <= si && si < body.len() {
        let seg = body.take(si);
        if is_host_like(seg) {
            let ci = first_index_of(seg, ':');
            lemma_first_index_props(seg, ':');
            if 0 <= ci && ci < seg.len() {
                assert(seg[ci] == ':');
            } else {
                if seg.contains(':') {
                    let w = choose|w: int| 0 <= w < seg.len() && seg[w] == ':';
                    assert(seg[w] == ':');
                }
                assert(seg == seg.take(seg.len() as int)) by {
                    assert(seg =~= seg.take(seg.len() as int));
                }
                if seg.contains('.') {
                    let w = choose|w: int| 0 <= w < seg.len() && seg[w] == '.';
                    assert(spec_parse(s)->0.host[w] == '.');
                    assert(spec_parse(s)->0.host.contains('.'));
                }
            }
        } else {
            lemma_default_host_props();
        }
    } else {
        lemma_default_host_props();
    }
}

/// The default registry host is a valid, dot-containing host name.
pub proof fn lemma_default_host_props()
    ensures
        valid_host(default_host()),
        default_host().contains('.'),
        valid_repo(library_prefix()),
{
    assert(default_host()[10] == '.');
    assert(forall|i: int| 0 <= i < default_host().len() ==> is_host_char(#[trigger] default_host()[i]));
    assert(forall|i: int|
        0 <= i < library_prefix().len() ==> is_repo_char(#[trigger] library_prefix()[i]));
}

/// Well-formedness of a parsed reference: every field valid, the host
/// distinguishable from a repository segment, and a tag or digest present.
pub open spec fn wf_ref(m: RefData) -> bool {
    &&& valid_host(m.host)
    &&& (m.host.contains('.') || m.host == localhost_seq() || m.port is Some)
    &&& (m.port is Some ==> m.port->0 >= 1)
    &&& valid_repo(m.repo)
    &&& (m.tag is Some ==> valid_tag(m.tag->0))
    &&& (m.digest is Some ==> valid_digest(m.digest->0))
    &&& (m.tag is Some || m.digest is Some)
}

// ---------------------------------------------------------------------------
// Canonical and normalized string forms
// ---------------------------------------------------------------------------

/// The `:port` piece of the canonical form, empty when no port is present.
pub open spec fn port_part(p: Option<u16>) -> Seq<char> {
    match p {
        Some(n) => seq![':'] + dec_repr(n as int),
        None => Seq::<char>::empty(),
    }
}

/// The `:tag` piece of the canonical form.
pub open spec fn tag_part(t: Option<Seq<char>>) -> Seq<char> {
    match t {
        Some(s) => seq![':'] + s,
        None => Seq::<char>::empty(),
    }
}

/// The `@digest` piece of the canonical form.
pub open spec fn digest_part(d: Option<Seq<char>>) -> Seq<char> {
    match d {
        Some(s) => seq!['@'] + s,
        None => Seq::<char>::empty(),
    }
}

/// The one canonical string form: `host[:port]/repository[:tag][@digest]`.
pub open spec fn canon_of(m: RefData) -> Seq<char> {
    m.host + port_part(m.port) + seq!['/'] + m.repo + tag_part(m.tag) + digest_part(m.digest)
}

/// The normalized form used for policy matching: `host[:port]/repository`,
/// never tag or digest.
pub open spec fn norm_of(m: RefData) -> Seq<char> {
    m.host + port_part(m.port) + seq!['/'] + m.repo
}

// ---------------------------------------------------------------------------
// Round trip: the canonical form parses back to the same reference
// ---------------------------------------------------------------------------

/// The canonical form never starts with a scheme prefix.
proof fn lemma_canon_no_scheme(m: RefData)
    requires
        wf_ref(m),
    ensures
        !has_scheme(canon_of(m)),
{
    let c = canon_of(m);
    let seg = m.host + port_part(m.port);
    let tail = m.repo + tag_part(m.tag) + digest_part(m.digest);
    assert(c =~= seg + seq!['/'] + tail);
    let hl = m.host.len() as int;
    if m.port is Some {
        lemma_dec_repr(m.port->0 as int);
    }
    assert forall|j: int| 0 <= j < hl implies is_host_char(#[trigger] c[j]) by {
        assert(c[j] == m.host[j]);
    }
    if has_http(c) {
        assert(c[0] == c.take(7)[0] && c[1] == c.take(7)[1] && c[2] == c.take(7)[2] && c[3]
            == c.take(7)[3] && c[4] == c.take(7)[4] && c[5] == c.take(7)[5]);
        assert(c[4] == ':' && c[5] == '/');
        assert(hl <= 4) by {
            if hl > 4 {
                assert(is_host_char(c[4]));
            }
        }
        if m.port is None {
            assert(c[hl] == '/');
            assert(hl < 4 ==> c[hl] == http_scheme()[hl]);
        } else {
            assert(c[hl] == ':');
            assert(hl < 4 ==> c[hl] == http_scheme()[hl]);
            assert(hl == 4);
            assert(c[5] == dec_repr(m.port->0 as int)[0]);
            assert(is_digit(c[5]));
        }
        assert(false);
    }
    if has_https(c) {
        assert(c[0] == c.take(8)[0] && c[1] == c.take(8)[1] && c[2] == c.take(8)[2] && c[3]
            == c.take(8)[3] && c[4] == c.take(8)[4] && c[5] == c.take(8)[5] && c[6] == c.take(
            8,
        )[6]);
        assert(c[5] == ':' && c[6] == '/');
        assert(hl <= 5) by {
            if hl > 5 {
                assert(is_host_char(c[5]));
            }
        }
        if m.port is None {
            assert(c[hl] == '/');
            assert(hl < 5 ==> c[hl] == https_scheme()[hl]);
        } else {
            assert(c[hl] == ':');
            assert(hl < 5 ==> c[hl] == https_scheme()[hl]);
            assert(hl == 5);
            assert(c[6] == dec_repr(m.port->0 as int)[0]);
            assert(is_digit(c[6]));
        }
        assert(false);
    }
}

/// The `host[:port]` piece of the canonical form splits back into host and
/// port, and is recognized as a host.
proof fn lemma_canon_host_port(m: RefData)
    requires
        wf_ref(m),
    ensures
        is_host_like(m.host + port_part(m.port)),
        split_host_port(m.host + port_part(m.port)) == Some((m.host, m.port)),
        forall|j: int|
            0 <= j < (m.host + port_part(m.port)).len() ==> (m.host + port_part(m.port))[j]
                != '/',
{
    let seg = m.host + port_part(m.port);
    let hl = m.host.len() as int;
    assert forall|j: int| 0 <= j < hl implies is_host_char(#[trigger] seg[j]) by {
        assert(seg[j] == m.host[j]);
    }
    match m.port {
        Some(p) => {
            lemma_dec_repr(p as int);
            let d = dec_repr(p as int);
            assert(seg[hl] == ':');
            assert(seg.contains(':'));
            assert forall|j: int| hl < j < seg.len() implies is_digit(#[trigger] seg[j]) by {
                assert(seg[j] == d[j - hl - 1]);
            }
            assert forall|j: int| 0 <= j < seg.len() implies seg[j] != '/' by {
                if j < hl {
                    assert(is_host_char(seg[j]));
                } else if j > hl {
                    assert(is_digit(seg[j]));
                }
            }
            lemma_first_index_char(seg, ':', hl);
            assert(seg.take(hl) =~= m.host);
            assert(seg.skip(hl + 1) =~= d);
            assert(valid_port_str(d));
            assert(dec_value(d) as u16 == p);
        },
        None => {
            assert(seg =~= m.host);
            assert forall|j: int| 0 <= j < seg.len() implies seg[j] != ':' && seg[j] != '/' by {
                assert(is_host_char(seg[j]));
            }
            lemma_first_index_char(seg, ':', seg.len() as int);
            assert(seg == m.host);
        },
    }
}

/// The `repository[:tag][@digest]` piece of the canonical form splits back
/// into its parts.
proof fn lemma_canon_path(m: RefData)
    requires
        wf_ref(m),
    ensures
        split_path(m.repo + tag_part(m.tag) + digest_part(m.digest)) == Some(
            (m.repo, m.tag, m.digest),
        ),
        norm_tag(m.tag, m.digest) == m.tag,
{
    let rt = m.repo + tag_part(m.tag);
    let tail = m.repo + tag_part(m.tag) + digest_part(m.digest);
    let rl = m.repo.len() as int;
    assert forall|j: int| 0 <= j < rl implies is_repo_char(#[trigger] rt[j]) by {
        assert(rt[j] == m.repo[j]);
    }
    if m.tag is Some {
        let t = m.tag->0;
        assert(rt[rl] == ':');
        assert forall|j: int| rl < j < rt.len() implies is_tag_char(#[trigger] rt[j]) by {
            assert(rt[j] == t[j - rl - 1]);
        }
    } else {
        assert(rt =~= m.repo);
    }
    // the '@' split
    let ai = first_index_of(tail, '@');
    assert forall|j: int| 0 <= j < rt.len() implies #[trigger] tail[j] == rt[j] && tail[j]
        != '@' by {
        if j < rl {
            assert(is_repo_char(rt[j]));
        } else if j > rl {
            assert(is_tag_char(rt[j]));
        }
    }
    match m.digest {
        Some(d) => {
            assert(tail[rt.len() as int] == '@');
            lemma_first_index_char(tail, '@', rt.len() as int);
            assert(tail.take(rt.len() as int) =~= rt);
            assert(tail.skip(rt.len() as int + 1) =~= d);
        },
        None => {
            assert(tail =~= rt);
            lemma_first_index_char(tail, '@', tail.len() as int);
        },
    }
    // the last '/' lies in the repository
    let lr = last_index_of(m.repo, '/');
    lemma_last_index_props(m.repo, '/');
    assert forall|j: int| lr < j < rt.len() implies rt[j] != '/' by {
        if j < rl {
            assert(rt[j] == m.repo[j]);
        } else if j == rl {
            if m.tag is Some {
                assert(rt[j] == ':');
            }
        } else {
            assert(is_tag_char(rt[j]));
        }
    }
    if lr >= 0 {
        assert(rt[lr] == m.repo[lr]);
    }
    lemma_last_index_char(rt, '/', lr);
    // the tag colon is the first colon after the last slash
    let sub = rt.skip(lr + 1);
    if m.tag is Some {
        let t = m.tag->0;
        assert forall|j: int| 0 <= j < rl - (lr + 1) implies sub[j] != ':' by {
            assert(sub[j] == m.repo[j + lr + 1]);
            assert(is_repo_char(sub[j]));
        }
        assert(sub[rl - (lr + 1)] == rt[rl] == ':');
        lemma_first_index_char(sub, ':', rl - (lr + 1));
        assert(lr + 1 + first_index_of(sub, ':') == rl);
        assert(rt.take(rl) =~= m.repo);
        assert(rt.skip(rl + 1) =~= t);
    } else {
        assert forall|j: int| 0 <= j < sub.len() implies sub[j] != ':' by {
            assert(sub[j] == m.repo[j + lr + 1]);
            assert(is_repo_char(sub[j]));
        }
        lemma_first_index_char(sub, ':', sub.len() as int);
        assert(lr + 1 + first_index_of(sub, ':') == rt.len());
        assert(rt == m.repo) by {
            assert(rt =~= m.repo);
        }
    }
}

/// The canonical string of a well-formed reference parses back to exactly
/// that reference.
pub proof fn lemma_parse_canon(m: RefData)
    requires
        wf_ref(m),
    ensures
        spec_parse(canon_of(m)) == Some(m),
{
    let c = canon_of(m);
    let seg = m.host + port_part(m.port);
    let tail = m.repo + tag_part(m.tag) + digest_part(m.digest);
    assert(c =~= seg + seq!['/'] + tail);
    lemma_canon_no_scheme(m);
    assert(body_of(c) == c);
    lemma_canon_host_port(m);
    assert forall|j: int| 0 <= j < seg.len() implies #[trigger] c[j] == seg[j] by {}
    assert(c[seg.len() as int] == '/');
    lemma_first_index_char(c, '/', seg.len() as int);
    assert(c.take(seg.len() as int) =~= seg);
    assert(c.skip(seg.len() as int + 1) =~= tail);
    lemma_canon_path(m);
    assert(spec_parse(c) == Some(
        RefData {
            host: m.host,
            port: m.port,
            repo: m.repo,
            tag: norm_tag(m.tag, m.digest),
            digest: m.digest,
        },
    ));
}

/// The canonical form is unique: two well-formed references with the same
/// canonical string are the same reference.
pub proof fn lemma_canon_injective(m1: RefData, m2: RefData)
    requires
        wf_ref(m1),
        wf_ref(m2),
        canon_of(m1) == canon_of(m2),
    ensures
        m1 == m2,
{
    lemma_parse_canon(m1);
    lemma_parse_canon(m2);
}

/// Parsing is idempotent through the canonical form: re-parsing the canonical
/// string of a parsed reference yields the same reference.
pub proof fn lemma_parse_roundtrip(raw: Seq<char>)
    requires
        spec_parse(raw) is Some,
    ensures
        spec_parse(canon_of(spec_parse(raw)->0)) == spec_parse(raw),
{
    lemma_parse_wf(raw);
    lemma_parse_canon(spec_parse(raw)->0);
}

// ---------------------------------------------------------------------------
// Scheme stripping
// ---------------------------------------------------------------------------

/// Whether a scheme-free raw reference names its registry host explicitly:
/// it has a path, and the segment before the first slash reads as a host.
pub open spec fn explicit_host(s: Seq<char>) -> bool {
    let si = first_index_of(s, '/');
    0 <= si && si < s.len() && is_host_like(s.take(si))
}

/// A scheme prefix is tolerated and meaningless on a reference with an
/// explicit host, and makes anything else malformed: it is never read as
/// part of the reference itself.
pub proof fn lemma_scheme_stripping(s: Seq<char>)
    requires
        !has_scheme(s),
    ensures
        spec_parse(http_scheme() + s) == if explicit_host(s) {
            spec_parse(s)
        } else {
            None::<RefData>
        },
        spec_parse(https_scheme() + s) == if explicit_host(s) {
            spec_parse(s)
        } else {
            None::<RefData>
        },
{
    let c1 = http_scheme() + s;
    let c2 = https_scheme() + s;
    assert(c1.take(7) =~= http_scheme());
    assert(has_http(c1));
    if has_https(c1) {
        assert(c1[4] == c1.take(8)[4]);
        assert(c1[4] == https_scheme()[4]);
        assert(c1[4] == http_scheme()[4]);
        assert(false);
    }
    assert(body_of(c1) =~= s);
    assert(c2.take(8) =~= https_scheme());
    assert(has_https(c2));
    assert(body_of(c2) =~= s);
    assert(body_of(s) == s);
    if s.len() > 0 {
        let si = first_index_of(s, '/');
        lemma_first_index_props(s, '/');
        if 0 <= si && si < s.len() && is_host_like(s.take(si)) {
            assert(spec_parse(c1) == spec_parse(s));
            assert(spec_parse(c2) == spec_parse(s));
        } else {
            assert(spec_parse(c1) is None);
            assert(spec_parse(c2) is None);
        }
    }
}

impl ImageReference {
    /// Renders the canonical string form of the reference.
    pub fn canonical_string(&self) -> (r: String)
        ensures
            r@ == canon_of(self@),
    {
        let mut s = self.host_port_string();
        proof {
            reveal_strlit("/");
            reveal_strlit(":");
            reveal_strlit("@");
            assert("/"@ =~= seq!['/']);
            assert(":"@ =~= seq![':']);
            assert("@"@ =~= seq!['@']);
        }
        s.append("/");
        s.append(self.repository.as_str());
        match &self.tag {
            Some(t) => {
                s.append(":");
                s.append(t.as_str());
            },
            None => {},
        }
        match &self.digest {
            Some(d) => {
                s.append("@");
                s.append(d.as_str());
            },
            None => {},
        }
        proof {
            assert(s@ =~= canon_of(self@));
        }
        s
    }

    /// Renders the normalized form `host[:port]/repository` that policy
    /// patterns are matched against.
    pub fn normalized_string(&self) -> (r: String)
        ensures
            r@ == norm_of(self@),
    {
        let mut s = self.host_port_string();
        proof {
            reveal_strlit("/");
            assert("/"@ =~= seq!['/']);
        }
        s.append("/");
        s.append(self.repository.as_str());
        proof {
            assert(s@ =~= norm_of(self@));
        }
        s
    }

    /// Renders `host[:port]`, the addressing part of the reference.
    pub fn host_port_string(&self) -> (r: String)
        ensures
            r@ == self@.host + port_part(self@.port),
    {
        let mut s = String::new();
        s.append(self.registry_host.as_str());
        match &self.port {
            Some(p) => {
                proof {
                    reveal_strlit(":");
                    assert(":"@ =~= seq![':']);
                }
                s.append(":");
                push_dec(&mut s, *p);
            },
            None => {},
        }
        proof {
            assert(s@ =~= self@.host + port_part(self@.port));
        }
        s
    }
}

} // verus!
