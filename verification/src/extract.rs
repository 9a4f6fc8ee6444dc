//! Finds client addresses in log lines.

use crate::address::{
    address_of, lemma_dotted_is_an_address, lemma_dotted_is_token, read_address, Ipv4Addr,
};
use crate::engine::IpBanEngine;
use crate::text::{
    ascii_lower, chars_of, find, first_index, index_of, is_digit, position_of, split,
    split_at_each, text_of, texts, to_ascii_lower, trim, trim_start, trimmed,
    CharClass,
};
use vstd::prelude::*;
use vstd::slice::slice_subrange;

verus! {

/// Whether an address can hold the character.
pub open spec fn is_token_char(c: char) -> bool {
    is_digit(c) || c == '.'
}

/// Whether a token that follows the character directly is part of a longer word.
pub open spec fn continues_identifier(c: char) -> bool {
    ||| c == '/'
    ||| c == '-'
    ||| c == '_'
    ||| '0' <= c <= '9'
    ||| 'a' <= c <= 'z'
    ||| 'A' <= c <= 'Z'
}

/// The end of the run of token characters that starts at `i`.
pub open spec fn run_end(line: Seq<char>, i: int) -> int
    decreases line.len() - i,
{
    if i < line.len() && is_token_char(line[i]) {
        run_end(line, i + 1)
    } else {
        i
    }
}

/// The address that the token between `start` and `end` gives: the token without dots at its
/// ends, where that is an address and does not continue an identifier.
pub open spec fn candidate(line: Seq<char>, start: int, end: int) -> Option<Seq<char>> {
    let token = trim(line.subrange(start, end), CharClass::Dot);
    if address_of(token) is Some && (start == 0 || !continues_identifier(line[start - 1])) {
        Some(token)
    } else {
        None
    }
}

/// `list` with the item at its end, where there is one.
pub open spec fn with_option(list: Seq<Seq<char>>, item: Option<Seq<char>>) -> Seq<Seq<char>> {
    match item {
        Some(text) => list.push(text),
        None => list,
    }
}

/// The addresses that the tokens of `line` give, from position `i` on.
pub open spec fn candidates_from(line: Seq<char>, i: int) -> Seq<Seq<char>>
    decreases line.len() - i,
    via candidates_from_decreases
{
    if i >= line.len() {
        seq![]
    } else if is_token_char(line[i]) {
        let end = run_end(line, i);
        with_option(seq![], candidate(line, i, end)) + candidates_from(line, end)
    } else {
        candidates_from(line, i + 1)
    }
}

#[via_fn]
proof fn candidates_from_decreases(line: Seq<char>, i: int) {
    if i < line.len() && is_token_char(line[i]) {
        lemma_run_end(line, i + 1);
    }
}

pub proof fn lemma_run_end(line: Seq<char>, i: int)
    requires
        i <= line.len(),
    ensures
        i <= run_end(line, i) <= line.len(),
        forall|j: int| i <= j < run_end(line, i) ==> is_token_char(#[trigger] line[j]),
        run_end(line, i) < line.len() ==> !is_token_char(line[run_end(line, i)]),
    decreases line.len() - i,
{
    if i < line.len() && is_token_char(line[i]) {
        lemma_run_end(line, i + 1);
    }
}

/// The texts of a list of strings.
pub open spec fn string_texts(v: Seq<String>) -> Seq<Seq<char>> {
    v.map_values(|s: String| s@)
}

/// Whether the token between `start` and `end` is as long as it can be.
pub open spec fn is_run(line: Seq<char>, start: int, end: int) -> bool {
    &&& 0 <= start < end <= line.len()
    &&& forall|j: int| start <= j < end ==> is_token_char(#[trigger] line[j])
    &&& start > 0 ==> !is_token_char(line[start - 1])
    &&& end < line.len() ==> !is_token_char(line[end])
}

pub proof fn lemma_run_end_unique(line: Seq<char>, start: int, end: int)
    requires
        is_run(line, start, end),
    ensures
        run_end(line, start) == end,
{
    lemma_run_end(line, start);
    let e = run_end(line, start);
    if e < end {
        assert(is_token_char(line[e]));
    }
    if end < e {
        assert(is_token_char(line[end]));
    }
}

/// Whether some token at or after `i` gives the text.
pub open spec fn run_gives(line: Seq<char>, i: int, text: Seq<char>) -> bool {
    exists|start: int, end: int|
        i <= start && is_run(line, start, end) && #[trigger] candidate(line, start, end) == Some(
            text,
        )
}

proof fn lemma_candidates_from(line: Seq<char>, i: int, text: Seq<char>)
    requires
        0 <= i <= line.len(),
        0 < i < line.len() ==> !(is_token_char(line[i - 1]) && is_token_char(line[i])),
    ensures
        candidates_from(line, i).contains(text) <==> run_gives(line, i, text),
    decreases line.len() - i,
{
    let all = candidates_from(line, i);
    if i >= line.len() {
    } else if is_token_char(line[i]) {
        let end = run_end(line, i);
        lemma_run_end(line, i);
        assert(is_token_char(line[i]));
        assert(end > i) by {
            lemma_run_end(line, i + 1);
        }
        assert(is_run(line, i, end));
        lemma_candidates_from(line, end, text);
        let head = with_option(seq![], candidate(line, i, end));
        let tail = candidates_from(line, end);
        assert(all == head + tail);
        if all.contains(text) {
            let k = choose|k: int| 0 <= k < all.len() && all[k] == text;
            if k < head.len() {
                assert(candidate(line, i, end) == Some(text));
            } else {
                assert(tail[k - head.len()] == text);
                assert(tail.contains(text));
            }
        }
        if run_gives(line, i, text) {
            let (s, e) = choose|s: int, e: int|
                i <= s && is_run(line, s, e) && #[trigger] candidate(line, s, e) == Some(text);
            if s == i {
                lemma_run_end_unique(line, s, e);
                assert(head[0] == text);
                assert(all[0] == text);
            } else {
                if s < end {
                    assert(is_token_char(line[s - 1]));
                }
                assert(run_gives(line, end, text));
                let k = choose|k: int| 0 <= k < tail.len() && tail[k] == text;
                assert(all[head.len() + k] == text);
            }
        }
    } else {
        lemma_candidates_from(line, i + 1, text);
        if run_gives(line, i, text) {
            let (s, e) = choose|s: int, e: int|
                i <= s && is_run(line, s, e) && #[trigger] candidate(line, s, e) == Some(text);
            assert(s != i) by {
                if s == i {
                    assert(is_token_char(line[s]));
                }
            }
        }
    }
}

/// The addresses found in a line are exactly those that its longest tokens give: nothing else
/// is found, and no token is passed over.
pub proof fn law_candidates_are_the_tokens(line: Seq<char>, text: Seq<char>)
    ensures
        candidates_from(line, 0).contains(text) <==> run_gives(line, 0, text),
{
    lemma_candidates_from(line, 0, text);
}

/// Everything found in a line is an address.
pub proof fn law_candidates_are_addresses(line: Seq<char>, text: Seq<char>)
    requires
        candidates_from(line, 0).contains(text),
    ensures
        address_of(text) is Some,
{
    lemma_candidates_from(line, 0, text);
}

/// A token that continues an identifier, such as a version number after a slash, gives no
/// address.
pub proof fn law_identifiers_give_no_address(line: Seq<char>, start: int, end: int)
    requires
        is_run(line, start, end),
        start > 0,
        continues_identifier(line[start - 1]),
    ensures
        candidate(line, start, end) is None,
{
}

/// An address is found wherever it stands alone in a line: after the start of the line or a
/// character that is no part of a word, and before the end of the line or a character that is
/// no part of an address. Dots right behind it, as at the end of a sentence, do not matter.
pub proof fn law_delimited_address_is_found(
    pre: Seq<char>,
    addr: Ipv4Addr,
    dots: Seq<char>,
    post: Seq<char>,
)
    requires
        pre.len() > 0 ==> !is_token_char(pre.last()) && !continues_identifier(pre.last()),
        forall|i: int| 0 <= i < dots.len() ==> #[trigger] dots[i] == '.',
        post.len() > 0 ==> !is_token_char(post[0]),
    ensures
        candidates_from(pre + addr.dotted() + dots + post, 0).contains(addr.dotted()),
{
    let text = addr.dotted();
    let line = pre + text + dots + post;
    let start = pre.len() as int;
    let end = (pre.len() + text.len() + dots.len()) as int;
    lemma_dotted_is_token(addr);
    assert forall|j: int| start <= j < end implies is_token_char(#[trigger] line[j]) by {
        if j < start + text.len() {
            assert(line[j] == text[j - start]);
        } else {
            assert(line[j] == dots[j - start - text.len()]);
        }
    }
    assert(is_run(line, start, end));
    assert(line.subrange(start, end) =~= text + dots);
    lemma_trim_trailing_dots(text, dots);
    lemma_dotted_is_an_address(addr);
    assert(candidate(line, start, end) == Some(text));
    lemma_candidates_from(line, 0, text);
}

proof fn lemma_trim_trailing_dots(text: Seq<char>, dots: Seq<char>)
    requires
        text.len() > 0,
        text[0] != '.',
        text.last() != '.',
        forall|i: int| 0 <= i < dots.len() ==> #[trigger] dots[i] == '.',
    ensures
        trim(text + dots, CharClass::Dot) == text,
    decreases dots.len(),
{
    assert((text + dots)[0] == text[0]);
    assert(trim_start(text + dots, CharClass::Dot) == text + dots);
    if dots.len() == 0 {
        assert(text + dots =~= text);
    } else {
        assert((text + dots).last() == dots.last());
        assert((text + dots).drop_last() =~= text + dots.drop_last());
        lemma_trim_trailing_dots(text, dots.drop_last());
        assert((text + dots.drop_last())[0] == text[0]);
        assert(trim_start(text + dots.drop_last(), CharClass::Dot) == text + dots.drop_last());
    }
}

/// Whether `text` is an address that is routed on the public internet.
pub open spec fn is_public_address(text: Seq<char>) -> bool {
    address_of(text) matches Some(addr) && addr.is_public()
}

/// The first of the parts, stripped of white space, that is a public address.
pub open spec fn first_public(parts: Seq<Seq<char>>) -> Option<Seq<char>>
    decreases parts.len(),
{
    if parts.len() == 0 {
        None
    } else {
        let text = trim(parts[0], CharClass::WhiteSpace);
        if is_public_address(text) {
            Some(text)
        } else {
            first_public(parts.drop_first())
        }
    }
}

/// What follows the first `name` in the line, in whatever case that is written, up to the next
/// quotation mark.
pub open spec fn header_value(line: Seq<char>, name: Seq<char>) -> Option<Seq<char>> {
    match find(ascii_lower(line), name) {
        Some(i) => {
            let after = line.skip(i + name.len());
            Some(after.take(first_index(after, '"')))
        },
        None => None,
    }
}

/// The client address that the line's headers give: the first public address of the
/// X-Forwarded-For header, else that of the X-Real-IP header.
pub open spec fn forwarded_ip(line: Seq<char>) -> Option<Seq<char>> {
    let forwarded = match header_value(line, "x-forwarded-for:"@) {
        Some(value) => first_public(split(value, ',')),
        None => None,
    };
    if forwarded is Some {
        forwarded
    } else {
        match header_value(line, "x-real-ip:"@) {
            Some(value) => first_public(seq![value]),
            None => None,
        }
    }
}

fn token_char(c: char) -> (r: bool)
    ensures
        r == is_token_char(c),
{
    ('0' <= c && c <= '9') || c == '.'
}

fn identifier_char(c: char) -> (r: bool)
    ensures
        r == continues_identifier(c),
{
    c == '/' || c == '-' || c == '_' || ('0' <= c && c <= '9') || ('a' <= c && c <= 'z') || ('A'
        <= c && c <= 'Z')
}

fn public_address(text: &[char]) -> (r: bool)
    ensures
        r == is_public_address(text@),
{
    match read_address(text) {
        Some(addr) => addr.public(),
        None => false,
    }
}

fn find_first_public<'a>(parts: &[&'a [char]]) -> (r: Option<&'a [char]>)
    ensures
        match r {
            Some(text) => first_public(texts(parts@)) == Some(text@),
            None => first_public(texts(parts@)) is None,
        },
{
    let ghost all = texts(parts@);
    let mut i: usize = 0;
    assert(all.skip(0) =~= all);
    while i < parts.len()
        invariant
            i <= parts@.len(),
            all == texts(parts@),
            first_public(all) == first_public(all.skip(i as int)),
        decreases parts@.len() - i,
    {
        let text = trimmed(parts[i], CharClass::WhiteSpace);
        assert(all.skip(i as int)[0] == parts@[i as int]@);
        if public_address(text) {
            return Some(text);
        }
        assert(all.skip(i as int).drop_first() =~= all.skip(i + 1));
        i += 1;
    }
    None
}

fn find_header_value<'a>(line: &'a [char], name: &str) -> (r: Option<&'a [char]>)
    ensures
        match r {
            Some(value) => header_value(line@, name@) == Some(value@),
            None => header_value(line@, name@) is None,
        },
{
    let lower = to_ascii_lower(line);
    let wanted = chars_of(name);
    match position_of(lower.as_slice(), wanted.as_slice()) {
        Some(start) => {
            assert(start + wanted@.len() <= line.len());
            let after = slice_subrange(line, start + wanted.len(), line.len());
            assert(after@ =~= line@.skip(start + name@.len()));
            let value = slice_subrange(after, 0, index_of(after, '"'));
            assert(value@ =~= after@.take(first_index(after@, '"')));
            Some(value)
        },
        None => None,
    }
}

impl IpBanEngine {
    /// Pulls IPv4 addresses out of a log line.
    ///
    /// Context matters: "Chrome/122.0.0.0" in a User-Agent holds a perfectly valid dotted quad,
    /// and banning it blocks a real network on behalf of a browser version number. A token is
    /// therefore passed over when it continues an identifier: when a slash, letter, digit,
    /// hyphen or underscore stands directly before it.
    pub fn extract_ip_candidates(line: &str) -> (r: Vec<String>)
        ensures
            string_texts(r@) == candidates_from(line@, 0),
    {
        let chars = chars_of(line);
        let mut candidates: Vec<String> = Vec::new();
        let mut i: usize = 0;
        assert(string_texts(candidates@) + candidates_from(line@, 0) =~= candidates_from(line@, 0));
        while i < chars.len()
            invariant
                chars@ == line@,
                i <= chars@.len(),
                string_texts(candidates@) + candidates_from(line@, i as int) == candidates_from(
                    line@,
                    0,
                ),
            decreases chars@.len() - i,
        {
            if !token_char(chars[i]) {
                i += 1;
                continue;
            }
            let ghost before = string_texts(candidates@);
            let start: usize = i;
            while i < chars.len() && token_char(chars[i])
                invariant
                    chars@ == line@,
                    start <= i <= chars@.len(),
                    run_end(line@, start as int) == run_end(line@, i as int),
                decreases chars@.len() - i,
            {
                i += 1;
            }
            assert(i == run_end(line@, start as int));
            assert(i > start) by {
                lemma_run_end(line@, start + 1);
            }
            Self::push_ip_candidate(&mut candidates, chars.as_slice(), start, i);
            assert(string_texts(candidates@) + candidates_from(line@, i as int) =~= before
                + candidates_from(line@, start as int));
        }
        assert(string_texts(candidates@) =~= candidates_from(line@, 0));
        candidates
    }

    /// Adds the address that the token between `start` and `end` gives, where it gives one.
    fn push_ip_candidate(candidates: &mut Vec<String>, line: &[char], start: usize, end: usize)
        requires
            start <= end <= line@.len(),
        ensures
            string_texts(final(candidates)@) == with_option(
                string_texts(old(candidates)@),
                candidate(line@, start as int, end as int),
            ),
    {
        // Sentence punctuation rides along: "from IP 1.2.3.4." gives a token with a dot at its
        // end, which is not a valid address.
        let token = trimmed(slice_subrange(line, start, end), CharClass::Dot);
        if read_address(token).is_none() {
            return;
        }
        if start > 0 && identifier_char(line[start - 1]) {
            return;
        }
        candidates.push(text_of(token));
        assert(string_texts(candidates@) =~= string_texts(old(candidates)@).push(token@));
    }

    /// The real client address out of the X-Forwarded-For or X-Real-IP header in a log line: the
    /// first publicly routable one found, or `None`.
    pub fn extract_forwarded_ip(line: &str) -> (r: Option<String>)
        ensures
            match r {
                Some(ip) => forwarded_ip(line@) == Some(ip@),
                None => forwarded_ip(line@) is None,
            },
    {
        let chars = chars_of(line);

        // X-Forwarded-For: client, proxy1, proxy2
        if let Some(value) = find_header_value(chars.as_slice(), "x-forwarded-for:") {
            let parts = split_at_each(value, ',');
            if let Some(ip) = find_first_public(parts.as_slice()) {
                return Some(text_of(ip));
            }
        }

        // X-Real-IP: <ip>
        if let Some(value) = find_header_value(chars.as_slice(), "x-real-ip:") {
            let mut parts: Vec<&[char]> = Vec::new();
            parts.push(value);
            assert(texts(parts@) =~= seq![value@]);
            if let Some(ip) = find_first_public(parts.as_slice()) {
                return Some(text_of(ip));
            }
        }

        None
    }
}

/// The first public address is the first: none of the parts before it is one, and where there is
/// none, no part is one.
pub proof fn law_first_public_is_the_first(parts: Seq<Seq<char>>)
    ensures
        match first_public(parts) {
            Some(ip) => exists|i: int|
                0 <= i < parts.len() && ip == trim(#[trigger] parts[i], CharClass::WhiteSpace)
                    && is_public_address(ip) && forall|j: int|
                    0 <= j < i ==> !is_public_address(
                        trim(#[trigger] parts[j], CharClass::WhiteSpace),
                    ),
            None => forall|j: int|
                0 <= j < parts.len() ==> !is_public_address(
                    trim(#[trigger] parts[j], CharClass::WhiteSpace),
                ),
        },
    decreases parts.len(),
{
    if parts.len() > 0 {
        let rest = parts.drop_first();
        let text = trim(parts[0], CharClass::WhiteSpace);
        law_first_public_is_the_first(rest);
        if !is_public_address(text) {
            match first_public(parts) {
                Some(ip) => {
                    let i = choose|i: int|
                        0 <= i < rest.len() && ip == trim(
                            #[trigger] rest[i],
                            CharClass::WhiteSpace,
                        ) && is_public_address(ip) && forall|j: int|
                            0 <= j < i ==> !is_public_address(
                                trim(#[trigger] rest[j], CharClass::WhiteSpace),
                            );
                    assert(parts[i + 1] == rest[i]);
                    assert forall|j: int| 0 <= j < i + 1 implies !is_public_address(
                        trim(#[trigger] parts[j], CharClass::WhiteSpace),
                    ) by {
                        if j > 0 {
                            assert(parts[j] == rest[j - 1]);
                        }
                    }
                },
                None => {
                    assert forall|j: int| 0 <= j < parts.len() implies !is_public_address(
                        trim(#[trigger] parts[j], CharClass::WhiteSpace),
                    ) by {
                        if j > 0 {
                            assert(parts[j] == rest[j - 1]);
                        }
                    }
                },
            }
        }
    }
}

/// What the headers give is always a public address.
pub proof fn law_forwarded_ip_is_public(line: Seq<char>)
    ensures
        forwarded_ip(line) matches Some(ip) ==> is_public_address(ip),
{
    if let Some(value) = header_value(line, "x-forwarded-for:"@) {
        law_first_public_is_the_first(split(value, ','));
    }
    if let Some(value) = header_value(line, "x-real-ip:"@) {
        law_first_public_is_the_first(seq![value]);
    }
}

} // verus!
