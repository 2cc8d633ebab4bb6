//! Input rules shared by the console and the API: usernames, passwords,
//! source URLs and the normalization of a user's link list.

use vstd::prelude::*;
use crate::text::{chars_of, decimal, decimal_chars, is_whitespace, is_ws, lemma_trim_idempotent, string_of, trim, trim_chars};
use crate::weburl::{parse_url, url_parse, ParsedUrl};

verus! {

/// Characters a username may hold: ASCII letters and digits, `-` and `_`.
pub open spec fn is_username_char(c: char) -> bool {
    ||| ('a' <= c && c <= 'z')
    ||| ('A' <= c && c <= 'Z')
    ||| ('0' <= c && c <= '9')
    ||| c == '-'
    ||| c == '_'
}

/// A username is a non-empty run of username characters.
pub open spec fn username_ok(s: Seq<char>) -> bool {
    s.len() > 0 && forall|i: int| 0 <= i < s.len() ==> is_username_char(#[trigger] s[i])
}

fn username_char(c: char) -> (r: bool)
    ensures
        r == is_username_char(c),
{
    ('a' <= c && c <= 'z') || ('A' <= c && c <= 'Z') || ('0' <= c && c <= '9') || c == '-' || c
        == '_'
}

pub fn is_valid_username_chars(s: &Vec<char>) -> (r: bool)
    ensures
        r == username_ok(s@),
{
    if s.len() == 0 {
        return false;
    }
    let mut i: usize = 0;
    while i < s.len()
        invariant
            i <= s.len(),
            forall|j: int| 0 <= j < i ==> is_username_char(#[trigger] s@[j]),
        decreases s.len() - i,
    {
        if !username_char(s[i]) {
            return false;
        }
        i += 1;
    }
    true
}

/// Whether `value` is a valid username.
pub fn is_valid_username(value: &str) -> (r: bool)
    ensures
        r == username_ok(value@),
{
    let chars = chars_of(value);
    is_valid_username_chars(&chars)
}

/// A password holds between 1 and 128 characters.
pub open spec fn password_length_ok(s: Seq<char>) -> bool {
    1 <= s.len() <= 128
}

/// Whether `value` has an acceptable password length.
pub fn is_valid_password_length(value: &str) -> (r: bool)
    ensures
        r == password_length_ok(value@),
{
    let chars = chars_of(value);
    1 <= chars.len() && chars.len() <= 128
}

pub open spec fn is_ascii_letter(c: char) -> bool {
    ('a' <= c && c <= 'z') || ('A' <= c && c <= 'Z')
}

pub open spec fn is_ascii_digit(c: char) -> bool {
    '0' <= c && c <= '9'
}

/// A symbol is any character that is neither an ASCII letter or digit nor whitespace.
pub open spec fn is_symbol(c: char) -> bool {
    !is_ascii_letter(c) && !is_ascii_digit(c) && !is_ws(c)
}

/// A strong password has an acceptable length and holds a letter, a digit
/// and a symbol.
pub open spec fn password_strong(s: Seq<char>) -> bool {
    &&& password_length_ok(s)
    &&& exists|i: int| 0 <= i < s.len() && is_ascii_letter(#[trigger] s[i])
    &&& exists|i: int| 0 <= i < s.len() && is_ascii_digit(#[trigger] s[i])
    &&& exists|i: int| 0 <= i < s.len() && is_symbol(#[trigger] s[i])
}

/// Whether `value` is a strong password.
pub fn is_strong_password(value: &str) -> (r: bool)
    ensures
        r == password_strong(value@),
{
    let s = chars_of(value);
    if !(1 <= s.len() && s.len() <= 128) {
        return false;
    }
    let mut letter = false;
    let mut digit = false;
    let mut symbol = false;
    let mut i: usize = 0;
    while i < s.len()
        invariant
            i <= s.len(),
            letter == exists|j: int| 0 <= j < i && is_ascii_letter(#[trigger] s@[j]),
            digit == exists|j: int| 0 <= j < i && is_ascii_digit(#[trigger] s@[j]),
            symbol == exists|j: int| 0 <= j < i && is_symbol(#[trigger] s@[j]),
        decreases s.len() - i,
    {
        let c = s[i];
        let is_letter = ('a' <= c && c <= 'z') || ('A' <= c && c <= 'Z');
        let is_digit = '0' <= c && c <= '9';
        if is_letter {
            letter = true;
        } else if is_digit {
            digit = true;
        } else if !is_whitespace(c) {
            symbol = true;
        }
        i += 1;
    }
    letter && digit && symbol
}

/// A source URL parses as an absolute `http` or `https` URL with a host.
pub open spec fn source_url_ok(s: Seq<char>) -> bool {
    match url_parse(s) {
        Some(u) => (u.1 == "http"@ || u.1 == "https"@) && u.2 is Some,
        None => false,
    }
}

/// Whether `parsed` is an `http` or `https` URL with a host.
pub fn is_http_url_with_host(parsed: &ParsedUrl) -> (r: bool)
    ensures
        r == ((parsed.scheme@ == "http"@ || parsed.scheme@ == "https"@) && parsed.host is Some),
{
    let http = "http".to_owned();
    let https = "https".to_owned();
    (parsed.scheme == http || parsed.scheme == https) && parsed.host.is_some()
}

/// Whether `value` is a usable source URL.
pub fn is_valid_source_url(value: &str) -> (r: bool)
    ensures
        r == source_url_ok(value@),
{
    match parse_url(value) {
        Some(parsed) => is_http_url_with_host(&parsed),
        None => false,
    }
}

/// The normalized link list: each link trimmed, empty ones dropped, and
/// only the first occurrence of each kept, in input order.
pub open spec fn normalized_links(links: Seq<Seq<char>>) -> Seq<Seq<char>>
    decreases links.len(),
{
    if links.len() == 0 {
        Seq::empty()
    } else {
        let p = normalized_links(links.drop_last());
        let t = trim(links.last());
        if t.len() == 0 || p.contains(t) {
            p
        } else {
            p.push(t)
        }
    }
}

/// The first trimmed, non-empty link that is not a usable source URL.
pub open spec fn first_invalid_link(links: Seq<Seq<char>>) -> Option<Seq<char>>
    decreases links.len(),
{
    if links.len() == 0 {
        None
    } else {
        match first_invalid_link(links.drop_last()) {
            Some(t) => Some(t),
            None => {
                let t = trim(links.last());
                if t.len() > 0 && !source_url_ok(t) {
                    Some(t)
                } else {
                    None
                }
            },
        }
    }
}

pub open spec fn invalid_link_message(link: Seq<char>) -> Seq<char> {
    "invalid url: "@ + link
}

pub open spec fn too_many_links_message(max_links: nat) -> Seq<char> {
    "maximum "@ + decimal(max_links) + " links allowed"@
}

/// What normalizing `links` under a limit of `max_links` gives: the first
/// invalid link is refused; otherwise a list longer than the limit is
/// refused; otherwise the normalized list.
pub open spec fn normalize_links_result(links: Seq<Seq<char>>, max_links: nat) -> Result<
    Seq<Seq<char>>,
    Seq<char>,
> {
    match first_invalid_link(links) {
        Some(t) => Err(invalid_link_message(t)),
        None => if normalized_links(links).len() > max_links {
            Err(too_many_links_message(max_links))
        } else {
            Ok(normalized_links(links))
        },
    }
}

pub open spec fn string_views(v: Seq<String>) -> Seq<Seq<char>> {
    v.map_values(|s: String| s@)
}

pub open spec fn result_view(r: Result<Vec<String>, String>) -> Result<Seq<Seq<char>>, Seq<char>> {
    match r {
        Ok(v) => Ok(string_views(v@)),
        Err(e) => Err(e@),
    }
}

fn contains_link(list: &Vec<String>, t: &String) -> (r: bool)
    ensures
        r == string_views(list@).contains(t@),
{
    let mut i: usize = 0;
    while i < list.len()
        invariant
            i <= list.len(),
            forall|j: int| 0 <= j < i ==> list@[j]@ != t@,
        decreases list.len() - i,
    {
        if list[i] == *t {
            proof {
                assert(string_views(list@)[i as int] == t@);
            }
            return true;
        }
        i += 1;
    }
    proof {
        if string_views(list@).contains(t@) {
            let k = choose|k: int| 0 <= k < string_views(list@).len() && string_views(list@)[k] == t@;
            assert(list@[k]@ != t@);
        }
    }
    false
}

/// Trims, drops empty entries, refuses invalid URLs, removes duplicates
/// keeping the first occurrence, and enforces the limit on the count.
pub fn normalize_links_preserve_order(links: &Vec<String>, max_links: usize) -> (r: Result<
    Vec<String>,
    String,
>)
    ensures
        result_view(r) == normalize_links_result(string_views(links@), max_links as nat),
{
    let ghost input = string_views(links@);
    let mut out: Vec<String> = Vec::new();
    let mut i: usize = 0;
    while i < links.len()
        invariant
            i <= links.len(),
            input == string_views(links@),
            first_invalid_link(input.take(i as int)) is None,
            string_views(out@) == normalized_links(input.take(i as int)),
        decreases links.len() - i,
    {
        let ghost prefix = input.take(i + 1);
        proof {
            assert(prefix.drop_last() =~= input.take(i as int));
            assert(prefix.last() == links@[i as int]@);
        }
        let raw = chars_of(links[i].as_str());
        let trimmed_chars = trim_chars(&raw);
        let trimmed = string_of(&trimmed_chars);
        if trimmed_chars.len() > 0 {
            if !is_valid_source_url(trimmed.as_str()) {
                proof {
                    assert(first_invalid_link(prefix) == Some(trimmed@));
                    lemma_first_invalid_prefix(input, i as int + 1);
                }
                let mut msg = "invalid url: ".to_owned();
                msg.append(trimmed.as_str());
                return Err(msg);
            }
            if !contains_link(&out, &trimmed) {
                let ghost before = out@;
                out.push(trimmed);
                proof {
                    assert(string_views(out@) =~= string_views(before).push(trimmed@));
                }
            }
        }
        i += 1;
    }
    proof {
        assert(input.take(links.len() as int) =~= input);
    }
    if out.len() > max_links {
        let mut msg = "maximum ".to_owned();
        let digits = decimal_chars(max_links as u64);
        let digits_text = string_of(&digits);
        msg.append(digits_text.as_str());
        msg.append(" links allowed");
        return Err(msg);
    }
    Ok(out)
}

/// Once some prefix of the links holds an invalid one, the whole list's
/// first invalid link is that prefix's.
proof fn lemma_first_invalid_prefix(links: Seq<Seq<char>>, k: int)
    requires
        0 <= k <= links.len(),
        first_invalid_link(links.take(k)) is Some,
    ensures
        first_invalid_link(links) == first_invalid_link(links.take(k)),
    decreases links.len() - k,
{
    if k < links.len() {
        assert(links.take(k + 1).drop_last() =~= links.take(k));
        lemma_first_invalid_prefix(links, k + 1);
    } else {
        assert(links.take(k) =~= links);
    }
}

/// Every normalized link is trimmed and non-empty, no link occurs twice,
/// and when no input link is invalid every normalized link is a usable
/// source URL.
pub proof fn lemma_normalized_links_shape(links: Seq<Seq<char>>)
    ensures
        forall|i: int| 0 <= i < normalized_links(links).len() ==> #[trigger] normalized_links(links)[i].len() > 0
            && trim(normalized_links(links)[i]) == normalized_links(links)[i],
        forall|i: int, j: int| 0 <= i < j < normalized_links(links).len() ==> normalized_links(links)[i]
            != normalized_links(links)[j],
        first_invalid_link(links) is None ==> forall|i: int| 0 <= i < normalized_links(links).len()
            ==> source_url_ok(#[trigger] normalized_links(links)[i]),
    decreases links.len(),
{
    if links.len() > 0 {
        let prev = links.drop_last();
        lemma_normalized_links_shape(prev);
        let p = normalized_links(prev);
        let t = trim(links.last());
        lemma_trim_idempotent(links.last());
        if !(t.len() == 0 || p.contains(t)) {
            let q = p.push(t);
            assert(normalized_links(links) == q);
            assert forall|i: int, j: int| 0 <= i < j < q.len() implies q[i] != q[j] by {
                if j == q.len() - 1 {
                    assert(q[i] == p[i]);
                    if q[i] == t {
                        assert(p.contains(t));
                    }
                }
            }
            assert forall|i: int| 0 <= i < q.len() implies #[trigger] q[i].len() > 0 && trim(q[i]) == q[i] by {
                if i < p.len() {
                    assert(q[i] == p[i]);
                }
            }
            if first_invalid_link(links) is None {
                assert(first_invalid_link(prev) is None);
                assert forall|i: int| 0 <= i < q.len() implies source_url_ok(#[trigger] q[i]) by {
                    if i < p.len() {
                        assert(q[i] == p[i]);
                    }
                }
            }
        }
    }
}

/// A list of distinct, trimmed, non-empty links normalizes to itself.
proof fn lemma_normalized_fixed(ys: Seq<Seq<char>>)
    requires
        forall|i: int| 0 <= i < ys.len() ==> #[trigger] ys[i].len() > 0 && trim(ys[i]) == ys[i],
        forall|i: int, j: int| 0 <= i < j < ys.len() ==> ys[i] != ys[j],
    ensures
        normalized_links(ys) == ys,
    decreases ys.len(),
{
    if ys.len() > 0 {
        let p = ys.drop_last();
        assert forall|i: int| 0 <= i < p.len() implies #[trigger] p[i].len() > 0 && trim(p[i]) == p[i] by {
            assert(p[i] == ys[i]);
        }
        lemma_normalized_fixed(p);
        assert(trim(ys.last()) == ys.last());
        if p.contains(ys.last()) {
            let k = choose|k: int| 0 <= k < p.len() && p[k] == ys.last();
            assert(ys[k] == ys[ys.len() - 1]);
        }
        assert(p.push(ys.last()) =~= ys);
    }
}

/// A list of trimmed usable source URLs holds no invalid link.
proof fn lemma_no_invalid(ys: Seq<Seq<char>>)
    requires
        forall|i: int| 0 <= i < ys.len() ==> trim(#[trigger] ys[i]) == ys[i] && source_url_ok(ys[i]),
    ensures
        first_invalid_link(ys) is None,
    decreases ys.len(),
{
    if ys.len() > 0 {
        let p = ys.drop_last();
        assert forall|i: int| 0 <= i < p.len() implies trim(#[trigger] p[i]) == p[i] && source_url_ok(p[i]) by {
            assert(p[i] == ys[i]);
        }
        lemma_no_invalid(p);
        assert(trim(ys.last()) == ys.last());
    }
}

/// Normalizing an already normalized list changes nothing.
pub proof fn lemma_normalize_idempotent(links: Seq<Seq<char>>, max_links: nat)
    ensures
        normalize_links_result(links, max_links) matches Ok(v) ==> normalize_links_result(v, max_links)
            == Ok::<Seq<Seq<char>>, Seq<char>>(v),
{
    if normalize_links_result(links, max_links) is Ok {
        let v = normalized_links(links);
        lemma_normalized_links_shape(links);
        lemma_normalized_fixed(v);
        lemma_no_invalid(v);
    }
}

} // verus!
