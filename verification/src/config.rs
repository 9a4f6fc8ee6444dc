//! The settings of the ban engine.

use crate::address::{
    dotted_address, in_cidr, in_cidr_spec, law_dotted_round_trip, law_full_prefix_is_one_address,
    lemma_decimal_text_is_octet, lemma_dotted_is_token, lemma_split_front, lemma_split_whole,
    octet, read_octet, Ipv4Addr,
};
use crate::text::{
    ascii_lower, chars_of, decimal_text, decimal_up_to, first_index, index_of, is_digit,
    lemma_first_index_unique, parse_decimal, same_text, split, split_at_each, texts,
    to_ascii_lower, trim, trimmed, CharClass,
};
use vstd::prelude::*;
use vstd::slice::slice_subrange;

verus! {

#[derive(Debug, Clone)]
pub struct IpBanConfig {
    pub enabled: bool,
    /// Offenses within the time window that lead to a ban.
    pub max_retries: u32,
    /// Length of the window in which offenses are counted.
    pub find_time_secs: u64,
    /// Length of a ban.
    pub ban_time_secs: u64,
    pub unban_check_interval_secs: u64,
    /// Ranges of reverse proxies; for a source address in one of these the real client address
    /// is the one in the X-Forwarded-For or X-Real-IP header.
    pub trusted_proxy_ranges: Vec<(Ipv4Addr, u8)>,
    /// Ranges of addresses that are never banned.
    pub allowlist_ranges: Vec<(Ipv4Addr, u8)>,
    /// Most bans within a minute; 0 means no limit.
    pub max_bans_per_minute: u32,
}

/// Whether the range holds the address.
pub open spec fn range_has(range: (Ipv4Addr, u8), ip: Ipv4Addr) -> bool {
    range.1 <= 32 && in_cidr_spec(ip, range.0, range.1 as int)
}

/// Whether one of the ranges holds the address.
pub open spec fn any_range_has(ranges: Seq<(Ipv4Addr, u8)>, ip: Ipv4Addr) -> bool {
    exists|i: int| 0 <= i < ranges.len() && range_has(#[trigger] ranges[i], ip)
}

/// Whether the ranges can be searched for the address from the front: no prefix longer than an
/// address comes before the first range that holds it.
pub open spec fn can_search(ranges: Seq<(Ipv4Addr, u8)>, ip: Ipv4Addr) -> bool {
    forall|i: int|
        0 <= i < ranges.len() && (#[trigger] ranges[i]).1 > 32 ==> exists|j: int|
            0 <= j < i && range_has(#[trigger] ranges[j], ip)
}

/// Searches the ranges from the front. `None` where a prefix longer than an address comes
/// before the first range that holds `ip`.
fn search(ranges: &[(Ipv4Addr, u8)], ip: &Ipv4Addr) -> (r: Option<bool>)
    ensures
        match r {
            Some(found) => can_search(ranges@, *ip) && found == any_range_has(ranges@, *ip),
            None => !can_search(ranges@, *ip),
        },
{
    let mut i: usize = 0;
    while i < ranges.len()
        invariant
            i <= ranges@.len(),
            forall|j: int| 0 <= j < i ==> (#[trigger] ranges@[j]).1 <= 32,
            forall|j: int| 0 <= j < i ==> !range_has(#[trigger] ranges@[j], *ip),
        decreases ranges@.len() - i,
    {
        let (network, prefix_len) = ranges[i];
        if prefix_len > 32 {
            assert(ranges@[i as int].1 > 32);
            return None;
        }
        if in_cidr(ip, &network, prefix_len) {
            assert(range_has(ranges@[i as int], *ip));
            return Some(true);
        }
        i += 1;
    }
    Some(false)
}

impl IpBanConfig {
    /// Reads the settings out of the environment, given as the names and values that it holds.
    /// A setting that is missing or cannot be read takes its default.
    pub fn from_env(vars: &[(String, String)]) -> (r: IpBanConfig)
        ensures
            r.enabled == bool_setting(setting(vars@, "STACKDOG_IP_BAN_ENABLED"@), true),
            r.max_retries == number_setting(
                setting(vars@, "STACKDOG_IP_BAN_MAX_RETRIES"@),
                u32::MAX as int,
                5,
            ),
            r.find_time_secs == number_setting(
                setting(vars@, "STACKDOG_IP_BAN_FIND_TIME_SECS"@),
                u64::MAX as int,
                300,
            ),
            r.ban_time_secs == number_setting(
                setting(vars@, "STACKDOG_IP_BAN_BAN_TIME_SECS"@),
                u64::MAX as int,
                1800,
            ),
            r.unban_check_interval_secs == number_setting(
                setting(vars@, "STACKDOG_IP_BAN_UNBAN_CHECK_INTERVAL_SECS"@),
                u64::MAX as int,
                60,
            ),
            r.trusted_proxy_ranges@ == cidr_list(
                match setting(vars@, "STACKDOG_TRUSTED_PROXY_RANGES"@) {
                    Some(list) => list,
                    None => "10.0.0.0/8,172.16.0.0/12,192.168.0.0/16"@,
                },
            ),
            r.allowlist_ranges@ == cidr_list(
                match setting(vars@, "STACKDOG_IP_BAN_ALLOWLIST"@) {
                    Some(list) => list,
                    None => ""@,
                },
            ),
            r.max_bans_per_minute == number_setting(
                setting(vars@, "STACKDOG_IP_BAN_MAX_PER_MINUTE"@),
                u32::MAX as int,
                10,
            ),
    {
        IpBanConfig {
            enabled: parse_bool_env(find_setting(vars, "STACKDOG_IP_BAN_ENABLED"), true),
            max_retries: parse_u32_env(find_setting(vars, "STACKDOG_IP_BAN_MAX_RETRIES"), 5),
            find_time_secs: parse_u64_env(
                find_setting(vars, "STACKDOG_IP_BAN_FIND_TIME_SECS"),
                300,
            ),
            ban_time_secs: parse_u64_env(find_setting(vars, "STACKDOG_IP_BAN_BAN_TIME_SECS"), 1800),
            unban_check_interval_secs: parse_u64_env(
                find_setting(vars, "STACKDOG_IP_BAN_UNBAN_CHECK_INTERVAL_SECS"),
                60,
            ),
            trusted_proxy_ranges: parse_cidr_list(
                match find_setting(vars, "STACKDOG_TRUSTED_PROXY_RANGES") {
                    Some(list) => list,
                    None => "10.0.0.0/8,172.16.0.0/12,192.168.0.0/16",
                },
            ),
            allowlist_ranges: parse_cidr_list(
                match find_setting(vars, "STACKDOG_IP_BAN_ALLOWLIST") {
                    Some(list) => list,
                    None => "",
                },
            ),
            max_bans_per_minute: parse_u32_env(
                find_setting(vars, "STACKDOG_IP_BAN_MAX_PER_MINUTE"),
                10,
            ),
        }
    }

    /// Whether `ip` falls within any configured trusted proxy range.
    pub fn is_trusted_proxy(&self, ip: &Ipv4Addr) -> (r: bool)
        requires
            can_search(self.trusted_proxy_ranges@, *ip),
        ensures
            r == any_range_has(self.trusted_proxy_ranges@, *ip),
    {
        match search(self.trusted_proxy_ranges.as_slice(), ip) {
            Some(found) => found,
            None => false,
        }
    }

    /// Whether `ip` falls within any allowlisted range.
    pub fn is_allowlisted(&self, ip: &Ipv4Addr) -> (r: bool)
        requires
            can_search(self.allowlist_ranges@, *ip),
        ensures
            r == any_range_has(self.allowlist_ranges@, *ip),
    {
        match search(self.allowlist_ranges.as_slice(), ip) {
            Some(found) => found,
            None => false,
        }
    }

    /// Whether `is_trusted_proxy` can be asked about `ip`.
    pub fn can_search_proxies(&self, ip: &Ipv4Addr) -> (r: bool)
        ensures
            r == can_search(self.trusted_proxy_ranges@, *ip),
    {
        search(self.trusted_proxy_ranges.as_slice(), ip).is_some()
    }

    /// Whether `is_allowlisted` can be asked about `ip`.
    pub fn can_search_allowlist(&self, ip: &Ipv4Addr) -> (r: bool)
        ensures
            r == can_search(self.allowlist_ranges@, *ip),
    {
        search(self.allowlist_ranges.as_slice(), ip).is_some()
    }
}

/// The range that `s` spells: an address, a slash and a prefix length, or an address alone,
/// which stands for itself.
pub open spec fn cidr_entry(s: Seq<char>) -> Option<(Ipv4Addr, u8)> {
    let i = first_index(s, '/');
    if i < s.len() {
        match (dotted_address(s.take(i)), octet(s.skip(i + 1))) {
            (Some(addr), Some(prefix_len)) => Some((addr, prefix_len)),
            _ => None,
        }
    } else {
        match dotted_address(s) {
            Some(addr) => Some((addr, 32u8)),
            None => None,
        }
    }
}

/// The ranges that the parts spell, with the parts left out that spell none.
pub open spec fn cidr_entries(parts: Seq<Seq<char>>) -> Seq<(Ipv4Addr, u8)>
    decreases parts.len(),
{
    if parts.len() == 0 {
        seq![]
    } else {
        let before = cidr_entries(parts.drop_last());
        match cidr_entry(trim(parts.last(), CharClass::WhiteSpace)) {
            Some(entry) => before.push(entry),
            None => before,
        }
    }
}

/// The ranges of a list with commas between them.
pub open spec fn cidr_list(raw: Seq<char>) -> Seq<(Ipv4Addr, u8)> {
    cidr_entries(split(raw, ','))
}

fn parse_cidr(s: &[char]) -> (r: Option<(Ipv4Addr, u8)>)
    ensures
        r == cidr_entry(s@),
{
    let i: usize = index_of(s, '/');
    if i < s.len() {
        let addr_part = slice_subrange(s, 0, i);
        let prefix_part = slice_subrange(s, i + 1, s.len());
        assert(addr_part@ =~= s@.take(i as int));
        assert(prefix_part@ =~= s@.skip(i + 1));
        match (Ipv4Addr::parse(addr_part), read_octet(prefix_part)) {
            (Some(addr), Some(prefix_len)) => Some((addr, prefix_len)),
            _ => None,
        }
    } else {
        match Ipv4Addr::parse(s) {
            Some(addr) => Some((addr, 32)),
            None => None,
        }
    }
}

/// Reads a list of ranges with commas between them; what spells no range is skipped.
pub fn parse_cidr_list(raw: &str) -> (r: Vec<(Ipv4Addr, u8)>)
    ensures
        r@ == cidr_list(raw@),
{
    let chars = chars_of(raw);
    let parts = split_at_each(chars.as_slice(), ',');
    let ghost all = texts(parts@);
    let mut r: Vec<(Ipv4Addr, u8)> = Vec::new();
    let mut i: usize = 0;
    while i < parts.len()
        invariant
            i <= parts@.len(),
            all == texts(parts@),
            r@ == cidr_entries(all.take(i as int)),
        decreases parts@.len() - i,
    {
        let entry = parse_cidr(trimmed(parts[i], CharClass::WhiteSpace));
        proof {
            assert(all.take(i + 1).drop_last() =~= all.take(i as int));
            assert(all.take(i + 1).last() == parts@[i as int]@);
        }
        if let Some(range) = entry {
            r.push(range);
        }
        i += 1;
    }
    assert(all.take(all.len() as int) =~= all);
    r
}

/// The value of the first variable with that name.
pub open spec fn setting(vars: Seq<(String, String)>, name: Seq<char>) -> Option<Seq<char>>
    decreases vars.len(),
{
    if vars.len() == 0 {
        None
    } else if vars[0].0@ == name {
        Some(vars[0].1@)
    } else {
        setting(vars.drop_first(), name)
    }
}

fn find_setting<'a>(vars: &'a [(String, String)], name: &str) -> (r: Option<&'a str>)
    ensures
        match r {
            Some(value) => setting(vars@, name@) == Some(value@),
            None => setting(vars@, name@) is None,
        },
{
    let wanted = chars_of(name);
    let mut i: usize = 0;
    assert(vars@.skip(0) =~= vars@);
    while i < vars.len()
        invariant
            i <= vars@.len(),
            wanted@ == name@,
            setting(vars@, name@) == setting(vars@.skip(i as int), name@),
        decreases vars@.len() - i,
    {
        let found = chars_of(vars[i].0.as_str());
        if same_text(found.as_slice(), wanted.as_slice()) {
            return Some(vars[i].1.as_str());
        }
        assert(vars@.skip(i as int).drop_first() =~= vars@.skip(i + 1));
        i += 1;
    }
    None
}

/// What a setting that is on or off says; neither for a word that is not known.
pub open spec fn bool_word(value: Seq<char>) -> Option<bool> {
    let word = ascii_lower(trim(value, CharClass::WhiteSpace));
    if word == "1"@ || word == "true"@ || word == "yes"@ || word == "on"@ {
        Some(true)
    } else if word == "0"@ || word == "false"@ || word == "no"@ || word == "off"@ {
        Some(false)
    } else {
        None
    }
}

pub open spec fn bool_setting(value: Option<Seq<char>>, default: bool) -> bool {
    match value {
        Some(v) => match bool_word(v) {
            Some(b) => b,
            None => default,
        },
        None => default,
    }
}

pub open spec fn number_setting(value: Option<Seq<char>>, max: int, default: int) -> int {
    match value {
        Some(v) => match decimal_up_to(trim(v, CharClass::WhiteSpace), max) {
            Some(n) => n,
            None => default,
        },
        None => default,
    }
}

/// The text of an optional value.
pub open spec fn text_option(value: Option<&str>) -> Option<Seq<char>> {
    match value {
        Some(v) => Some(v@),
        None => None,
    }
}

fn is_word(s: &[char], word: &str) -> (r: bool)
    ensures
        r == (s@ == word@),
{
    same_text(s, chars_of(word).as_slice())
}

/// Reads a setting that is on or off.
pub fn parse_bool_env(value: Option<&str>, default: bool) -> (r: bool)
    ensures
        r == bool_setting(text_option(value), default),
{
    match value {
        Some(v) => {
            let chars = chars_of(v);
            let lower = to_ascii_lower(trimmed(chars.as_slice(), CharClass::WhiteSpace));
            let word = lower.as_slice();
            if is_word(word, "1") || is_word(word, "true") || is_word(word, "yes") || is_word(
                word,
                "on",
            ) {
                true
            } else if is_word(word, "0") || is_word(word, "false") || is_word(word, "no")
                || is_word(word, "off") {
                false
            } else {
                default
            }
        },
        None => default,
    }
}

/// Reads a setting that is a number.
pub fn parse_u64_env(value: Option<&str>, default: u64) -> (r: u64)
    ensures
        r == number_setting(text_option(value), u64::MAX as int, default as int),
{
    match value {
        Some(v) => {
            let chars = chars_of(v);
            match parse_decimal(trimmed(chars.as_slice(), CharClass::WhiteSpace), u64::MAX) {
                Some(n) => n,
                None => default,
            }
        },
        None => default,
    }
}

/// Reads a setting that is a number of 32 bits.
pub fn parse_u32_env(value: Option<&str>, default: u32) -> (r: u32)
    ensures
        r == number_setting(text_option(value), u32::MAX as int, default as int),
{
    match value {
        Some(v) => {
            let chars = chars_of(v);
            match parse_decimal(trimmed(chars.as_slice(), CharClass::WhiteSpace), u32::MAX as u64) {
                Some(n) => n as u32,
                None => default,
            }
        },
        None => default,
    }
}

/// Ranges whose prefixes are no longer than an address can be searched for every address.
pub proof fn law_sound_ranges_can_be_searched(ranges: Seq<(Ipv4Addr, u8)>, ip: Ipv4Addr)
    requires
        forall|i: int| 0 <= i < ranges.len() ==> (#[trigger] ranges[i]).1 <= 32,
    ensures
        can_search(ranges, ip),
{
}

/// A range is read back as it is written.
pub proof fn law_written_range_is_read(addr: Ipv4Addr, prefix_len: u8)
    ensures
        cidr_entry(addr.dotted() + seq!['/'] + decimal_text(prefix_len as int)) == Some(
            (addr, prefix_len),
        ),
{
    let a = addr.dotted();
    let p = decimal_text(prefix_len as int);
    let s = a + seq!['/'] + p;
    lemma_dotted_is_token(addr);
    lemma_decimal_text_is_octet(prefix_len);
    law_dotted_round_trip(a, addr);
    assert forall|j: int| 0 <= j < a.len() implies s[j] != '/' by {
        assert(s[j] == a[j]);
    }
    lemma_first_index_unique(s, '/', a.len() as int);
    assert(s.take(a.len() as int) =~= a);
    assert(s.skip(a.len() as int + 1) =~= p);
}

proof fn lemma_dotted_is_trimmed(addr: Ipv4Addr)
    ensures
        trim(addr.dotted(), CharClass::WhiteSpace) == addr.dotted(),
        !addr.dotted().contains(','),
        first_index(addr.dotted(), '/') == addr.dotted().len(),
{
    let s = addr.dotted();
    lemma_dotted_is_token(addr);
    assert forall|j: int| 0 <= j < s.len() implies s[j] != ',' && s[j] != '/' by {
        let c = s[j];
        assert(is_digit(c) || c == '.');
    }
    lemma_first_index_unique(s, '/', s.len() as int);
}

/// An address alone in a list of ranges stands for itself and no other.
pub proof fn law_bare_address_is_a_range_of_one(addr: Ipv4Addr, ip: Ipv4Addr)
    ensures
        cidr_list(addr.dotted()) == seq![(addr, 32u8)],
        any_range_has(cidr_list(addr.dotted()), ip) <==> ip == addr,
{
    let s = addr.dotted();
    lemma_dotted_is_trimmed(addr);
    lemma_split_whole(s, ',');
    law_dotted_round_trip(s, addr);
    law_full_prefix_is_one_address(ip, addr);
    let parts = split(s, ',');
    assert(parts.drop_last() =~= Seq::<Seq<char>>::empty());
    assert(cidr_entries(parts.drop_last()) == Seq::<(Ipv4Addr, u8)>::empty());
    let list = cidr_list(s);
    assert(list =~= seq![(addr, 32u8)]);
    if ip == addr {
        assert(range_has(list[0], ip));
    }
}

/// Lists are read part by part: what stands before a comma does not change how the rest is read.
pub proof fn law_list_is_read_part_by_part(front: Seq<char>, rest: Seq<char>)
    requires
        !front.contains(','),
    ensures
        cidr_list(front + seq![','] + rest) == cidr_list(front) + cidr_list(rest),
{
    lemma_split_front(front, rest, ',');
    lemma_split_whole(front, ',');
    lemma_entries_concat(split(front, ','), split(rest, ','));
}

proof fn lemma_entries_concat(a: Seq<Seq<char>>, b: Seq<Seq<char>>)
    ensures
        cidr_entries(a + b) == cidr_entries(a) + cidr_entries(b),
    decreases b.len(),
{
    if b.len() == 0 {
        assert(a + b =~= a);
        assert(cidr_entries(a) + cidr_entries(b) =~= cidr_entries(a));
    } else {
        assert((a + b).drop_last() =~= a + b.drop_last());
        lemma_entries_concat(a, b.drop_last());
        assert(cidr_entries(a + b) =~= cidr_entries(a) + cidr_entries(b));
    }
}

} // verus!
