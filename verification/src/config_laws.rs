//! What the settings come to, in terms of the values that are written.

use crate::address::{
    dotted_address, law_dotted_round_trip, lemma_decimal_text, lemma_dotted_is_token,
    lemma_split_whole, Ipv4Addr,
};
use crate::address_laws::{
    law_range_is_its_leading_bits, lemma_decimal_is_not_negative, same_leading_bits,
};
use crate::config::{
    any_range_has, bool_word, can_search, cidr_entries, cidr_entry, cidr_list,
    law_list_is_read_part_by_part, law_written_range_is_read, parse_bool_env, parse_u32_env,
    parse_u64_env, range_has, setting, IpBanConfig,
};
use crate::text::{
    ascii_lower, decimal, decimal_text, first_index, is_digit, lemma_first_index_unique, lower_char,
    split, trim, trim_end, trim_start, CharClass,
};
use crate::text_laws::{
    differ_in_case_only, law_trimming_leaves_the_core, lemma_lower_is_the_word, same_letter,
};
use vstd::prelude::*;

verus! {

/// A setting is the value of the first variable with its name, and is missing only where there is
/// no such variable.
pub proof fn law_setting_is_the_first_of_its_name(vars: Seq<(String, String)>, name: Seq<char>)
    ensures
        match setting(vars, name) {
            Some(value) => exists|i: int|
                0 <= i < vars.len() && (#[trigger] vars[i]).0@ == name && value == vars[i].1@
                    && forall|j: int| 0 <= j < i ==> (#[trigger] vars[j]).0@ != name,
            None => forall|j: int| 0 <= j < vars.len() ==> (#[trigger] vars[j]).0@ != name,
        },
    decreases vars.len(),
{
    if vars.len() > 0 {
        let rest = vars.drop_first();
        law_setting_is_the_first_of_its_name(rest, name);
        if vars[0].0@ != name {
            match setting(rest, name) {
                Some(value) => {
                    let i = choose|i: int|
                        0 <= i < rest.len() && (#[trigger] rest[i]).0@ == name && value
                            == rest[i].1@ && forall|j: int|
                            0 <= j < i ==> (#[trigger] rest[j]).0@ != name;
                    assert(vars[i + 1] == rest[i]);
                    assert forall|j: int| 0 <= j < i + 1 implies (#[trigger] vars[j]).0@
                        != name by {
                        if j > 0 {
                            assert(vars[j] == rest[j - 1]);
                        }
                    }
                },
                None => {
                    assert forall|j: int| 0 <= j < vars.len() implies (#[trigger] vars[j]).0@
                        != name by {
                        if j > 0 {
                            assert(vars[j] == rest[j - 1]);
                        }
                    }
                },
            }
        }
    }
}

proof fn lemma_case_is_no_space(a: char, b: char)
    requires
        same_letter(a, b),
    ensures
        CharClass::WhiteSpace.has(a) == CharClass::WhiteSpace.has(b),
        lower_char(a) == lower_char(b),
{
}

proof fn lemma_trim_start_ignores_case(a: Seq<char>, b: Seq<char>)
    requires
        differ_in_case_only(a, b),
    ensures
        differ_in_case_only(
            trim_start(a, CharClass::WhiteSpace),
            trim_start(b, CharClass::WhiteSpace),
        ),
    decreases a.len(),
{
    if a.len() > 0 {
        assert(same_letter(a[0], b[0]));
        lemma_case_is_no_space(a[0], b[0]);
        let (c, d) = (a.drop_first(), b.drop_first());
        assert forall|i: int| 0 <= i < c.len() implies same_letter(#[trigger] c[i], d[i]) by {
            assert(same_letter(a[i + 1], b[i + 1]));
        }
        lemma_trim_start_ignores_case(c, d);
    }
}

proof fn lemma_trim_end_ignores_case(a: Seq<char>, b: Seq<char>)
    requires
        differ_in_case_only(a, b),
    ensures
        differ_in_case_only(
            trim_end(a, CharClass::WhiteSpace),
            trim_end(b, CharClass::WhiteSpace),
        ),
    decreases a.len(),
{
    if a.len() > 0 {
        assert(same_letter(a[a.len() - 1], b[b.len() - 1]));
        lemma_case_is_no_space(a.last(), b.last());
        let (c, d) = (a.drop_last(), b.drop_last());
        assert forall|i: int| 0 <= i < c.len() implies same_letter(#[trigger] c[i], d[i]) by {
            assert(same_letter(a[i], b[i]));
        }
        lemma_trim_end_ignores_case(c, d);
    }
}

proof fn lemma_lower_ignores_case(a: Seq<char>, b: Seq<char>)
    requires
        differ_in_case_only(a, b),
    ensures
        ascii_lower(a) == ascii_lower(b),
{
    assert forall|i: int| 0 <= i < a.len() implies lower_char(a[i]) == lower_char(b[i]) by {
        assert(same_letter(a[i], b[i]));
        lemma_case_is_no_space(a[i], b[i]);
    }
    assert(ascii_lower(a) =~= ascii_lower(b));
}

/// Case does not matter for a switch: two values that differ in the case of their letters only
/// read the same.
pub proof fn law_case_does_not_matter_for_a_switch(
    a: &str,
    b: &str,
    default: bool,
    read_a: bool,
    read_b: bool,
)
    requires
        differ_in_case_only(a@, b@),
        call_ensures(parse_bool_env, (Some(a), default), read_a),
        call_ensures(parse_bool_env, (Some(b), default), read_b),
    ensures
        bool_word(a@) == bool_word(b@),
        read_a == read_b,
{
    let ws = CharClass::WhiteSpace;
    lemma_trim_start_ignores_case(a@, b@);
    lemma_trim_end_ignores_case(trim_start(a@, ws), trim_start(b@, ws));
    lemma_lower_ignores_case(trim(a@, ws), trim(b@, ws));
}

/// Whether the text holds nothing but white space.
pub open spec fn is_blank(s: Seq<char>) -> bool {
    forall|i: int| 0 <= i < s.len() ==> CharClass::WhiteSpace.has(#[trigger] s[i])
}

/// Whether the text has no white space at its ends.
pub open spec fn is_bare(s: Seq<char>) -> bool {
    s.len() > 0 ==> !CharClass::WhiteSpace.has(s[0]) && !CharClass::WhiteSpace.has(s.last())
}

/// Whether the text is a word that turns a switch on, in any mix of cases.
pub open spec fn says_on(word: Seq<char>) -> bool {
    ||| word == seq!['1']
    ||| differ_in_case_only(word, seq!['t', 'r', 'u', 'e'])
    ||| differ_in_case_only(word, seq!['y', 'e', 's'])
    ||| differ_in_case_only(word, seq!['o', 'n'])
}

/// Whether the text is a word that turns a switch off, in any mix of cases.
pub open spec fn says_off(word: Seq<char>) -> bool {
    ||| word == seq!['0']
    ||| differ_in_case_only(word, seq!['f', 'a', 'l', 's', 'e'])
    ||| differ_in_case_only(word, seq!['n', 'o'])
    ||| differ_in_case_only(word, seq!['o', 'f', 'f'])
}

proof fn lemma_word_is_read(word: Seq<char>)
    ensures
        says_on(word) <==> ({
            let low = ascii_lower(word);
            low == "1"@ || low == "true"@ || low == "yes"@ || low == "on"@
        }),
        says_off(word) <==> ({
            let low = ascii_lower(word);
            low == "0"@ || low == "false"@ || low == "no"@ || low == "off"@
        }),
        !(says_on(word) && says_off(word)),
{
    reveal_strlit("1");
    reveal_strlit("true");
    reveal_strlit("yes");
    reveal_strlit("on");
    reveal_strlit("0");
    reveal_strlit("false");
    reveal_strlit("no");
    reveal_strlit("off");
    assert("1"@ =~= seq!['1']);
    assert("true"@ =~= seq!['t', 'r', 'u', 'e']);
    assert("yes"@ =~= seq!['y', 'e', 's']);
    assert("on"@ =~= seq!['o', 'n']);
    assert("0"@ =~= seq!['0']);
    assert("false"@ =~= seq!['f', 'a', 'l', 's', 'e']);
    assert("no"@ =~= seq!['n', 'o']);
    assert("off"@ =~= seq!['o', 'f', 'f']);
    lemma_lower_is_the_word(word, "1"@);
    lemma_lower_is_the_word(word, "true"@);
    lemma_lower_is_the_word(word, "yes"@);
    lemma_lower_is_the_word(word, "on"@);
    lemma_lower_is_the_word(word, "0"@);
    lemma_lower_is_the_word(word, "false"@);
    lemma_lower_is_the_word(word, "no"@);
    lemma_lower_is_the_word(word, "off"@);
    if differ_in_case_only(word, "1"@) {
        assert(same_letter(word[0], '1'));
        assert(word =~= seq!['1']);
    }
    if differ_in_case_only(word, "0"@) {
        assert(same_letter(word[0], '0'));
        assert(word =~= seq!['0']);
    }
    let low = ascii_lower(word);
    if low == "1"@ {
        assert(low[0] == '1');
    }
    if low == "0"@ {
        assert(low[0] == '0');
    }
    if low == "on"@ {
        assert(low[0] == 'o');
    }
    if low == "no"@ {
        assert(low[0] == 'n');
    }
    if low == "yes"@ {
        assert(low[0] == 'y');
    }
    if low == "off"@ {
        assert(low[0] == 'o');
    }
}

/// A switch is on for the words 1, true, yes and on, off for 0, false, no and off, each in any mix
/// of cases and with any white space around it, and stands at its default for anything else.
pub proof fn law_switch_words(
    value: &str,
    default: bool,
    read: bool,
    before: Seq<char>,
    word: Seq<char>,
    after: Seq<char>,
)
    requires
        call_ensures(parse_bool_env, (Some(value), default), read),
        value@ == before + word + after,
        is_blank(before) && is_bare(word) && is_blank(after),
    ensures
        bool_word(value@) == (if says_on(word) {
            Some(true)
        } else if says_off(word) {
            Some(false)
        } else {
            None
        }),
        says_on(word) ==> read,
        says_off(word) ==> !read,
        !says_on(word) && !says_off(word) ==> read == default,
{
    law_trimming_leaves_the_core(before, word, after, CharClass::WhiteSpace);
    lemma_word_is_read(word);
}

/// A switch that is not set stands at its default.
pub proof fn law_missing_switch_takes_its_default(default: bool, read: bool)
    requires
        call_ensures(parse_bool_env, (None::<&str>, default), read),
    ensures
        read == default,
{
}

/// A number is read with any white space around it, and takes its default where it is too large or
/// is none.
pub proof fn law_number_setting_is_read(
    value: &str,
    before: Seq<char>,
    number: Seq<char>,
    after: Seq<char>,
    default_long: u64,
    read_long: u64,
    default_short: u32,
    read_short: u32,
)
    requires
        value@ == before + number + after,
        is_blank(before) && is_bare(number) && is_blank(after),
        call_ensures(parse_u64_env, (Some(value), default_long), read_long),
        call_ensures(parse_u32_env, (Some(value), default_short), read_short),
    ensures
        match decimal(number) {
            Some(n) => {
                &&& n <= 18_446_744_073_709_551_615 ==> read_long == n
                &&& n > 18_446_744_073_709_551_615 ==> read_long == default_long
                &&& n <= 4_294_967_295 ==> read_short == n
                &&& n > 4_294_967_295 ==> read_short == default_short
            },
            None => read_long == default_long && read_short == default_short,
        },
{
    law_trimming_leaves_the_core(before, number, after, CharClass::WhiteSpace);
}

/// A number that is not set takes its default.
pub proof fn law_missing_number_takes_its_default(
    default_long: u64,
    read_long: u64,
    default_short: u32,
    read_short: u32,
)
    requires
        call_ensures(parse_u64_env, (None::<&str>, default_long), read_long),
        call_ensures(parse_u32_env, (None::<&str>, default_short), read_short),
    ensures
        read_long == default_long,
        read_short == default_short,
{
}

/// Whether the address shares the first bits of the range's network, as many as its prefix is
/// long.
pub open spec fn shares_prefix(range: (Ipv4Addr, u8), ip: Ipv4Addr) -> bool {
    range.1 <= 32 && same_leading_bits(ip, range.0, range.1 as int)
}

pub proof fn lemma_range_has(range: (Ipv4Addr, u8), ip: Ipv4Addr)
    ensures
        range_has(range, ip) <==> shares_prefix(range, ip),
{
    if range.1 <= 32 {
        law_range_is_its_leading_bits(ip, range.0, range.1 as int);
    }
}

/// Ranges hold an address exactly where it shares the prefix of one of them.
pub proof fn law_ranges_hold_what_shares_a_prefix(ranges: Seq<(Ipv4Addr, u8)>, ip: Ipv4Addr)
    ensures
        any_range_has(ranges, ip) <==> exists|i: int|
            0 <= i < ranges.len() && shares_prefix(#[trigger] ranges[i], ip),
{
    assert forall|i: int| 0 <= i < ranges.len() implies range_has(#[trigger] ranges[i], ip)
        == shares_prefix(ranges[i], ip) by {
        lemma_range_has(ranges[i], ip);
    }
}

/// Ranges cannot be searched for an address exactly where one of them has a prefix longer than an
/// address, and the address shares the prefix of none before it.
pub proof fn law_ranges_that_cannot_be_searched(ranges: Seq<(Ipv4Addr, u8)>, ip: Ipv4Addr)
    ensures
        !can_search(ranges, ip) <==> exists|i: int|
            0 <= i < ranges.len() && (#[trigger] ranges[i]).1 > 32 && forall|j: int|
                0 <= j < i ==> !shares_prefix(#[trigger] ranges[j], ip),
{
    assert forall|i: int| 0 <= i < ranges.len() implies range_has(#[trigger] ranges[i], ip)
        == shares_prefix(ranges[i], ip) by {
        lemma_range_has(ranges[i], ip);
    }
}

/// An address is a trusted proxy's where it shares the prefix of a proxy range, and allowlisted
/// where it shares the prefix of an allowlisted range.
pub proof fn law_proxies_and_allowlist_go_by_their_prefixes(
    config: &IpBanConfig,
    ip: &Ipv4Addr,
    trusted: bool,
    allowed: bool,
)
    requires
        call_ensures(IpBanConfig::is_trusted_proxy, (config, ip), trusted),
        call_ensures(IpBanConfig::is_allowlisted, (config, ip), allowed),
    ensures
        trusted <==> exists|i: int|
            0 <= i < config.trusted_proxy_ranges@.len() && shares_prefix(
                #[trigger] config.trusted_proxy_ranges@[i],
                *ip,
            ),
        allowed <==> exists|i: int|
            0 <= i < config.allowlist_ranges@.len() && shares_prefix(
                #[trigger] config.allowlist_ranges@[i],
                *ip,
            ),
{
    law_ranges_hold_what_shares_a_prefix(config.trusted_proxy_ranges@, *ip);
    law_ranges_hold_what_shares_a_prefix(config.allowlist_ranges@, *ip);
}

/// What stands before the first slash of a range is its network in dotted notation, and what
/// stands behind it is its prefix length, a number of at most 255.
pub proof fn law_slash_parts_network_and_prefix(
    network: Seq<char>,
    prefix: Seq<char>,
    addr: Ipv4Addr,
    prefix_len: u8,
)
    requires
        !network.contains('/'),
    ensures
        cidr_entry(network + seq!['/'] + prefix) == Some((addr, prefix_len)) <==> network
            == addr.dotted() && decimal(prefix) == Some(prefix_len as int),
{
    let s = network + seq!['/'] + prefix;
    assert forall|j: int| 0 <= j < network.len() implies s[j] != '/' by {
        assert(network.contains(network[j]));
    }
    lemma_first_index_unique(s, '/', network.len() as int);
    assert(s.take(network.len() as int) =~= network);
    assert(s.skip(network.len() as int + 1) =~= prefix);
    law_dotted_round_trip(network, addr);
    if decimal(prefix) is Some {
        lemma_decimal_is_not_negative(prefix);
    }
}

/// A range without a slash is one address in dotted notation, with a prefix of all 32 bits.
pub proof fn law_address_without_slash_is_a_full_prefix(
    text: Seq<char>,
    addr: Ipv4Addr,
    prefix_len: u8,
)
    requires
        !text.contains('/'),
    ensures
        cidr_entry(text) == Some((addr, prefix_len)) <==> text == addr.dotted() && prefix_len == 32,
{
    assert forall|j: int| 0 <= j < text.len() implies text[j] != '/' by {
        assert(text.contains(text[j]));
    }
    lemma_first_index_unique(text, '/', text.len() as int);
    law_dotted_round_trip(text, addr);
}

/// A list without a comma is one range, whatever white space is around it, or none where it is no
/// range.
pub proof fn law_list_of_one(before: Seq<char>, text: Seq<char>, after: Seq<char>)
    requires
        is_blank(before) && is_bare(text) && is_blank(after),
        !text.contains(','),
    ensures
        cidr_list(before + text + after) == match cidr_entry(text) {
            Some(range) => seq![range],
            None => Seq::<(Ipv4Addr, u8)>::empty(),
        },
{
    let s = before + text + after;
    law_trimming_leaves_the_core(before, text, after, CharClass::WhiteSpace);
    assert(!s.contains(',')) by {
        if s.contains(',') {
            let k = choose|k: int| 0 <= k < s.len() && s[k] == ',';
            if k < before.len() {
                assert(CharClass::WhiteSpace.has(before[k]));
            } else if k < before.len() + text.len() {
                assert(text[k - before.len()] == ',');
            } else {
                assert(CharClass::WhiteSpace.has(after[k - before.len() - text.len()]));
            }
        }
    }
    lemma_split_whole(s, ',');
    let parts = split(s, ',');
    assert(parts.drop_last() =~= Seq::<Seq<char>>::empty());
    assert(cidr_entries(parts.drop_last()) =~= Seq::<(Ipv4Addr, u8)>::empty());
    assert(parts.last() == s);
}

proof fn lemma_list_of_range(addr: Ipv4Addr, prefix_len: u8, text: Seq<char>)
    requires
        text == addr.dotted() + seq!['/'] + decimal_text(prefix_len as int),
    ensures
        cidr_list(text) == seq![(addr, prefix_len)],
        !text.contains(','),
{
    law_written_range_is_read(addr, prefix_len);
    lemma_dotted_is_token(addr);
    lemma_decimal_text(prefix_len as int);
    let p = decimal_text(prefix_len as int);
    let none = Seq::<char>::empty();
    assert(text[0] == addr.dotted()[0]);
    assert(is_digit(p[p.len() - 1]));
    assert(text.last() == p.last());
    assert(!text.contains(',')) by {
        if text.contains(',') {
            let k = choose|k: int| 0 <= k < text.len() && text[k] == ',';
            let n = addr.dotted().len();
            if k < n {
                let c = addr.dotted()[k];
                assert(is_digit(c) || c == '.');
            } else if k > n {
                assert(is_digit(p[k - n - 1]));
            }
        }
    }
    law_list_of_one(none, text, none);
    assert(none + text + none =~= text);
}

proof fn lemma_default_proxies()
    ensures
        cidr_list("10.0.0.0/8,172.16.0.0/12,192.168.0.0/16"@) == seq![
            (Ipv4Addr { a: 10, b: 0, c: 0, d: 0 }, 8u8),
            (Ipv4Addr { a: 172, b: 16, c: 0, d: 0 }, 12u8),
            (Ipv4Addr { a: 192, b: 168, c: 0, d: 0 }, 16u8),
        ],
{
    reveal_with_fuel(decimal_text, 4);
    reveal_strlit("10.0.0.0/8,172.16.0.0/12,192.168.0.0/16");
    let x = Ipv4Addr { a: 10, b: 0, c: 0, d: 0 };
    let y = Ipv4Addr { a: 172, b: 16, c: 0, d: 0 };
    let z = Ipv4Addr { a: 192, b: 168, c: 0, d: 0 };
    let first = seq!['1', '0', '.', '0', '.', '0', '.', '0', '/', '8'];
    let second = seq!['1', '7', '2', '.', '1', '6', '.', '0', '.', '0', '/', '1', '2'];
    let third = seq!['1', '9', '2', '.', '1', '6', '8', '.', '0', '.', '0', '/', '1', '6'];
    assert(first =~= x.dotted() + seq!['/'] + decimal_text(8));
    assert(second =~= y.dotted() + seq!['/'] + decimal_text(12));
    assert(third =~= z.dotted() + seq!['/'] + decimal_text(16));
    lemma_list_of_range(x, 8, first);
    lemma_list_of_range(y, 12, second);
    lemma_list_of_range(z, 16, third);
    law_list_is_read_part_by_part(second, third);
    let rest = second + seq![','] + third;
    law_list_is_read_part_by_part(first, rest);
    assert("10.0.0.0/8,172.16.0.0/12,192.168.0.0/16"@ =~= first + seq![','] + rest);
}

/// Whether a variable of that name is given.
pub open spec fn is_given(vars: Seq<(String, String)>, name: Seq<char>) -> bool {
    exists|i: int| 0 <= i < vars.len() && (#[trigger] vars[i]).0@ == name
}

/// What is not set takes its default: bans are on, five offenses within five minutes lead to one
/// of half an hour, bans that have expired are looked for each minute, the private ranges are
/// trusted proxies, nothing is allowlisted, and ten bans are allowed in a minute.
pub proof fn law_settings_have_defaults(vars: &[(String, String)], config: IpBanConfig)
    requires
        call_ensures(IpBanConfig::from_env, (vars,), config),
    ensures
        !is_given(vars@, "STACKDOG_IP_BAN_ENABLED"@) ==> config.enabled,
        !is_given(vars@, "STACKDOG_IP_BAN_MAX_RETRIES"@) ==> config.max_retries == 5,
        !is_given(vars@, "STACKDOG_IP_BAN_FIND_TIME_SECS"@) ==> config.find_time_secs == 300,
        !is_given(vars@, "STACKDOG_IP_BAN_BAN_TIME_SECS"@) ==> config.ban_time_secs == 1800,
        !is_given(vars@, "STACKDOG_IP_BAN_UNBAN_CHECK_INTERVAL_SECS"@)
            ==> config.unban_check_interval_secs == 60,
        !is_given(vars@, "STACKDOG_TRUSTED_PROXY_RANGES"@) ==> config.trusted_proxy_ranges@
            == seq![
            (Ipv4Addr { a: 10, b: 0, c: 0, d: 0 }, 8u8),
            (Ipv4Addr { a: 172, b: 16, c: 0, d: 0 }, 12u8),
            (Ipv4Addr { a: 192, b: 168, c: 0, d: 0 }, 16u8),
        ],
        !is_given(vars@, "STACKDOG_IP_BAN_ALLOWLIST"@) ==> config.allowlist_ranges@.len() == 0,
        !is_given(vars@, "STACKDOG_IP_BAN_MAX_PER_MINUTE"@) ==> config.max_bans_per_minute == 10,
{
    law_setting_is_the_first_of_its_name(vars@, "STACKDOG_IP_BAN_ENABLED"@);
    law_setting_is_the_first_of_its_name(vars@, "STACKDOG_IP_BAN_MAX_RETRIES"@);
    law_setting_is_the_first_of_its_name(vars@, "STACKDOG_IP_BAN_FIND_TIME_SECS"@);
    law_setting_is_the_first_of_its_name(vars@, "STACKDOG_IP_BAN_BAN_TIME_SECS"@);
    law_setting_is_the_first_of_its_name(vars@, "STACKDOG_IP_BAN_UNBAN_CHECK_INTERVAL_SECS"@);
    law_setting_is_the_first_of_its_name(vars@, "STACKDOG_TRUSTED_PROXY_RANGES"@);
    law_setting_is_the_first_of_its_name(vars@, "STACKDOG_IP_BAN_ALLOWLIST"@);
    law_setting_is_the_first_of_its_name(vars@, "STACKDOG_IP_BAN_MAX_PER_MINUTE"@);
    lemma_default_proxies();
    reveal_strlit("");
    let none = Seq::<char>::empty();
    assert(""@ =~= none);
    assert(cidr_entry(none) is None) by {
        assert(first_index(none, '/') == 0);
        lemma_split_whole(none, '.');
        assert(dotted_address(none) is None);
    }
    law_list_of_one(none, none, none);
    assert(none + none + none =~= none);
}

/// Whether the first variable of that name has that value.
pub open spec fn first_value_is(
    vars: Seq<(String, String)>,
    i: int,
    name: Seq<char>,
) -> bool {
    &&& 0 <= i < vars.len()
    &&& vars[i].0@ == name
    &&& forall|j: int| 0 <= j < i ==> (#[trigger] vars[j]).0@ != name
}

proof fn lemma_first_value(vars: Seq<(String, String)>, i: int, name: Seq<char>)
    requires
        first_value_is(vars, i, name),
    ensures
        setting(vars, name) == Some(vars[i].1@),
{
    law_setting_is_the_first_of_its_name(vars, name);
}

/// What a numeric setting reads as.
pub open spec fn number_or(value: Seq<char>, max: int, default: int) -> int {
    let number = trim(value, CharClass::WhiteSpace);
    if decimal(number) is Some && decimal(number)->0 <= max {
        decimal(number)->0
    } else {
        default
    }
}

/// What is set is read out of the variable of its own name, the first one where there are several.
pub proof fn law_settings_are_read(vars: &[(String, String)], config: IpBanConfig, i: int)
    requires
        call_ensures(IpBanConfig::from_env, (vars,), config),
        0 <= i < vars@.len(),
    ensures
        ({
            let value = vars@[i].1@;
            &&& first_value_is(vars@, i, "STACKDOG_IP_BAN_ENABLED"@) ==> config.enabled
                == !says_off(trim(value, CharClass::WhiteSpace))
            &&& first_value_is(vars@, i, "STACKDOG_IP_BAN_MAX_RETRIES"@) ==> config.max_retries
                == number_or(value, 4_294_967_295, 5)
            &&& first_value_is(vars@, i, "STACKDOG_IP_BAN_FIND_TIME_SECS"@)
                ==> config.find_time_secs == number_or(value, 18_446_744_073_709_551_615, 300)
            &&& first_value_is(vars@, i, "STACKDOG_IP_BAN_BAN_TIME_SECS"@) ==> config.ban_time_secs
                == number_or(value, 18_446_744_073_709_551_615, 1800)
            &&& first_value_is(vars@, i, "STACKDOG_IP_BAN_UNBAN_CHECK_INTERVAL_SECS"@)
                ==> config.unban_check_interval_secs == number_or(
                value,
                18_446_744_073_709_551_615,
                60,
            )
            &&& first_value_is(vars@, i, "STACKDOG_TRUSTED_PROXY_RANGES"@)
                ==> config.trusted_proxy_ranges@ == cidr_list(value)
            &&& first_value_is(vars@, i, "STACKDOG_IP_BAN_ALLOWLIST"@)
                ==> config.allowlist_ranges@ == cidr_list(value)
            &&& first_value_is(vars@, i, "STACKDOG_IP_BAN_MAX_PER_MINUTE"@)
                ==> config.max_bans_per_minute == number_or(value, 4_294_967_295, 10)
        }),
{
    let value = vars@[i].1@;
    if first_value_is(vars@, i, "STACKDOG_IP_BAN_ENABLED"@) {
        lemma_first_value(vars@, i, "STACKDOG_IP_BAN_ENABLED"@);
        lemma_word_is_read(trim(value, CharClass::WhiteSpace));
    }
    if first_value_is(vars@, i, "STACKDOG_IP_BAN_MAX_RETRIES"@) {
        lemma_first_value(vars@, i, "STACKDOG_IP_BAN_MAX_RETRIES"@);
    }
    if first_value_is(vars@, i, "STACKDOG_IP_BAN_FIND_TIME_SECS"@) {
        lemma_first_value(vars@, i, "STACKDOG_IP_BAN_FIND_TIME_SECS"@);
    }
    if first_value_is(vars@, i, "STACKDOG_IP_BAN_BAN_TIME_SECS"@) {
        lemma_first_value(vars@, i, "STACKDOG_IP_BAN_BAN_TIME_SECS"@);
    }
    if first_value_is(vars@, i, "STACKDOG_IP_BAN_UNBAN_CHECK_INTERVAL_SECS"@) {
        lemma_first_value(vars@, i, "STACKDOG_IP_BAN_UNBAN_CHECK_INTERVAL_SECS"@);
    }
    if first_value_is(vars@, i, "STACKDOG_TRUSTED_PROXY_RANGES"@) {
        lemma_first_value(vars@, i, "STACKDOG_TRUSTED_PROXY_RANGES"@);
    }
    if first_value_is(vars@, i, "STACKDOG_IP_BAN_ALLOWLIST"@) {
        lemma_first_value(vars@, i, "STACKDOG_IP_BAN_ALLOWLIST"@);
    }
    if first_value_is(vars@, i, "STACKDOG_IP_BAN_MAX_PER_MINUTE"@) {
        lemma_first_value(vars@, i, "STACKDOG_IP_BAN_MAX_PER_MINUTE"@);
    }
}

} // verus!
