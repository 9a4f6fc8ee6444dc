//! What is found in log lines, in terms of the characters that stand around it.

use crate::address::{address_of, lemma_split_whole, Ipv4Addr};
use crate::address_laws::{
    law_public_is_outside_the_reserved_ranges, reserved_ranges, same_leading_bits,
};
use crate::engine::IpBanEngine;
use crate::extract::{
    candidate, candidates_from, continues_identifier, first_public, header_value,
    is_public_address, is_run, is_token_char, law_delimited_address_is_found,
    law_first_public_is_the_first, lemma_run_end, lemma_run_end_unique, run_end, string_texts,
    with_option,
};
use crate::text::{ascii_lower, find, lemma_first_index_unique, split, trim, CharClass};
use crate::text_laws::{
    differ_in_case_only, is_lower, law_find_gives_the_first_place, law_trimming_leaves_the_core,
    lemma_lower_is_the_word,
};
use vstd::prelude::*;

verus! {

/// Whether the character is an ASCII digit or a dot.
pub open spec fn is_digit_or_dot(c: char) -> bool {
    0x30 <= c as int <= 0x39 || c == '.'
}

/// Whether the character is an ASCII letter, a slash, a hyphen or an underscore.
pub open spec fn is_word_part(c: char) -> bool {
    ||| 0x41 <= c as int <= 0x5a
    ||| 0x61 <= c as int <= 0x7a
    ||| c == '/'
    ||| c == '-'
    ||| c == '_'
}

/// An address is found wherever the character before it is neither an ASCII letter or digit nor a
/// slash, hyphen, underscore or dot, and the one behind it is neither a digit nor a dot.
pub proof fn law_address_is_found_between_other_characters(
    before: Seq<char>,
    addr: Ipv4Addr,
    after: Seq<char>,
    line: &str,
    found: Vec<String>,
)
    requires
        line@ == before + addr.dotted() + after,
        before.len() > 0 ==> {
            let c = before.last();
            &&& c != '/' && c != '-' && c != '_' && c != '.'
            &&& !(0x30 <= c as int <= 0x39)
            &&& !(0x41 <= c as int <= 0x5a)
            &&& !(0x61 <= c as int <= 0x7a)
        },
        after.len() > 0 ==> {
            let c = after[0];
            c != '.' && !(0x30 <= c as int <= 0x39)
        },
        call_ensures(IpBanEngine::extract_ip_candidates, (line,), found),
    ensures
        candidates_from(line@, 0).contains(addr.dotted()),
        exists|i: int| 0 <= i < found@.len() && (#[trigger] found@[i])@ == addr.dotted(),
{
    let none = Seq::<char>::empty();
    law_delimited_address_is_found(before, addr, none, after);
    assert(before + addr.dotted() + none + after =~= line@);
    let texts = string_texts(found@);
    let k = choose|k: int| 0 <= k < texts.len() && texts[k] == addr.dotted();
    assert(found@[k]@ == addr.dotted());
}

proof fn lemma_run_in_front(left: Seq<char>, line: Seq<char>, i: int)
    requires
        0 <= i <= left.len() < line.len(),
        left == line.take(left.len() as int),
        !is_token_char(line[left.len() as int]),
    ensures
        run_end(line, i) == run_end(left, i),
        i <= run_end(left, i) <= left.len(),
    decreases left.len() - i,
{
    if i < left.len() {
        assert(left[i] == line[i]);
        lemma_run_in_front(left, line, i + 1);
    }
}

/// What is found in front of a character that no address holds does not depend on what follows.
proof fn lemma_candidates_in_front(left: Seq<char>, line: Seq<char>, i: int)
    requires
        0 <= i <= left.len() < line.len(),
        left == line.take(left.len() as int),
        !is_token_char(line[left.len() as int]),
    ensures
        candidates_from(line, i) == candidates_from(left, i) + candidates_from(
            line,
            left.len() as int,
        ),
    decreases left.len() - i,
{
    let n = left.len() as int;
    let rest = candidates_from(line, n);
    if i == n {
        assert(candidates_from(left, i) =~= Seq::<Seq<char>>::empty());
        assert(candidates_from(left, i) + rest =~= rest);
    } else {
        assert(left[i] == line[i]);
        if is_token_char(line[i]) {
            let end = run_end(line, i);
            lemma_run_in_front(left, line, i);
            lemma_run_end(line, i + 1);
            lemma_candidates_in_front(left, line, end);
            assert(left.subrange(i, end) =~= line.subrange(i, end));
            assert(i > 0 ==> left[i - 1] == line[i - 1]);
            let head = with_option(seq![], candidate(line, i, end));
            assert(candidate(left, i, end) == candidate(line, i, end));
            assert(head + (candidates_from(left, end) + rest) =~= head + candidates_from(left, end)
                + rest);
        } else {
            lemma_candidates_in_front(left, line, i + 1);
        }
    }
}

proof fn lemma_run_behind(line: Seq<char>, k: int, right: Seq<char>, i: int)
    requires
        0 <= k <= line.len(),
        right == line.skip(k),
        0 <= i <= right.len(),
    ensures
        run_end(line, k + i) == k + run_end(right, i),
    decreases right.len() - i,
{
    if i < right.len() {
        assert(right[i] == line[k + i]);
        if is_token_char(right[i]) {
            lemma_run_behind(line, k, right, i + 1);
        }
    }
}

/// What is found behind a place does not depend on what stands before it, but for a token that
/// begins right there.
proof fn lemma_candidates_behind(line: Seq<char>, k: int, right: Seq<char>, i: int)
    requires
        0 <= k <= line.len(),
        right == line.skip(k),
        0 <= i <= right.len(),
        i == 0 && k > 0 && right.len() > 0 ==> !continues_identifier(line[k - 1])
            || !is_token_char(right[0]),
    ensures
        candidates_from(line, k + i) == candidates_from(right, i),
    decreases right.len() - i,
{
    if i < right.len() {
        assert(right[i] == line[k + i]);
        if is_token_char(right[i]) {
            let end = run_end(right, i);
            lemma_run_end(right, i + 1);
            lemma_run_end(right, i);
            lemma_run_behind(line, k, right, i);
            lemma_candidates_behind(line, k, right, end);
            assert(line.subrange(k + i, k + end) =~= right.subrange(i, end));
            if i > 0 {
                assert(right[i - 1] == line[k + i - 1]);
            }
            assert(candidate(line, k + i, k + end) == candidate(right, i, end));
        } else {
            lemma_candidates_behind(line, k, right, i + 1);
        }
    }
}

/// A character that is part of neither an address nor a word parts a line: what is found in the
/// line is what is found before it, and then what is found behind it.
pub proof fn law_other_characters_part_a_line(left: Seq<char>, c: char, right: Seq<char>)
    requires
        !is_digit_or_dot(c),
        !is_word_part(c),
    ensures
        candidates_from(left + seq![c] + right, 0) == candidates_from(left, 0) + candidates_from(
            right,
            0,
        ),
{
    let line = left + seq![c] + right;
    let n = left.len() as int;
    assert(line[n] == c);
    assert(line.take(n) =~= left);
    assert(line.skip(n + 1) =~= right);
    lemma_candidates_in_front(left, line, 0);
    lemma_candidates_behind(line, n + 1, right, 0);
}

/// Digits and dots right behind a letter, slash, hyphen or underscore give no address: what is
/// found in the line is what is found before that character, and then what is found behind the
/// digits and dots.
pub proof fn law_digits_behind_a_word_give_nothing(
    left: Seq<char>,
    c: char,
    digits: Seq<char>,
    right: Seq<char>,
)
    requires
        is_word_part(c),
        forall|i: int| 0 <= i < digits.len() ==> is_digit_or_dot(#[trigger] digits[i]),
        right.len() > 0 ==> !is_digit_or_dot(right[0]),
    ensures
        candidates_from(left + seq![c] + digits + right, 0) == candidates_from(left, 0)
            + candidates_from(right, 0),
{
    let line = left + seq![c] + digits + right;
    let n = left.len() as int;
    let end = n + 1 + digits.len();
    assert(line[n] == c);
    assert(line.take(n) =~= left);
    assert(line.skip(end) =~= right);
    lemma_candidates_in_front(left, line, 0);
    assert(candidates_from(line, n) == candidates_from(line, n + 1));
    if digits.len() > 0 {
        assert forall|j: int| n + 1 <= j < end implies is_token_char(#[trigger] line[j]) by {
            assert(is_digit_or_dot(digits[j - n - 1]));
        }
        if end < line.len() {
            assert(line[end] == right[0]);
        }
        assert(is_run(line, n + 1, end));
        lemma_run_end_unique(line, n + 1, end);
        assert(line[n + 1] == digits[0]);
        assert(candidate(line, n + 1, end) is None);
        let none = Seq::<Seq<char>>::empty();
        assert(none + candidates_from(line, end) =~= candidates_from(line, end));
    }
    lemma_candidates_behind(line, end, right, 0);
}

/// A line of digits and dots alone gives, without the dots at its ends, the one address that it
/// is, or nothing where it is none.
pub proof fn law_line_of_digits_and_dots(front: Seq<char>, text: Seq<char>, back: Seq<char>)
    requires
        forall|i: int| 0 <= i < front.len() ==> #[trigger] front[i] == '.',
        forall|i: int| 0 <= i < back.len() ==> #[trigger] back[i] == '.',
        forall|i: int| 0 <= i < text.len() ==> is_digit_or_dot(#[trigger] text[i]),
        text.len() > 0 ==> text[0] != '.' && text.last() != '.',
    ensures
        candidates_from(front + text + back, 0) == if address_of(text) is Some {
            seq![text]
        } else {
            seq![]
        },
{
    let line = front + text + back;
    let end = line.len() as int;
    law_trimming_leaves_the_core(front, text, back, CharClass::Dot);
    assert forall|j: int| 0 <= j < end implies is_token_char(#[trigger] line[j]) by {
        if j < front.len() {
            assert(line[j] == front[j]);
        } else if j < front.len() + text.len() {
            assert(is_digit_or_dot(text[j - front.len()]));
        } else {
            assert(line[j] == back[j - front.len() - text.len()]);
        }
    }
    if end > 0 {
        assert(is_run(line, 0, end));
        lemma_run_end_unique(line, 0, end);
        assert(line.subrange(0, end) =~= line);
        assert(candidates_from(line, end) =~= Seq::<Seq<char>>::empty());
        assert(candidates_from(line, 0) =~= with_option(seq![], candidate(line, 0, end)));
        if address_of(text) is Some {
            assert(with_option(seq![], candidate(line, 0, end)) =~= seq![text]);
        }
    } else {
        lemma_split_whole(text, '.');
    }
}

/// The list of what is found in a line holds the texts in the order in which they are found.
pub proof fn law_found_texts_are_listed(line: &str, found: Vec<String>)
    requires
        call_ensures(IpBanEngine::extract_ip_candidates, (line,), found),
    ensures
        found@.len() == candidates_from(line@, 0).len(),
        forall|i: int| 0 <= i < found@.len() ==> (#[trigger] found@[i])@ == candidates_from(
            line@,
            0,
        )[i],
{
    let texts = string_texts(found@);
    assert(texts.len() == found@.len());
    assert forall|i: int| 0 <= i < found@.len() implies (#[trigger] found@[i])@ == candidates_from(
        line@,
        0,
    )[i] by {
        assert(texts[i] == found@[i]@);
    }
}

/// A text is a public address exactly where it spells an address that no reserved range holds.
pub proof fn law_public_texts(text: Seq<char>)
    ensures
        is_public_address(text) <==> (address_of(text) matches Some(addr) && forall|i: int|
            0 <= i < reserved_ranges().len() ==> !same_leading_bits(
                addr,
                (#[trigger] reserved_ranges()[i]).0,
                reserved_ranges()[i].1,
            )),
{
    if let Some(addr) = address_of(text) {
        law_public_is_outside_the_reserved_ranges(addr);
    }
}

/// Whether the name stands in the line at that place, in any mix of cases.
pub open spec fn name_stands_at(line: Seq<char>, name: Seq<char>, i: int) -> bool {
    &&& 0 <= i <= line.len() - name.len()
    &&& differ_in_case_only(line.subrange(i, i + name.len()), name)
}

proof fn lemma_name_in_lower_case(line: Seq<char>, name: Seq<char>, i: int)
    requires
        is_lower(name),
        0 <= i <= line.len() - name.len(),
    ensures
        ascii_lower(line).subrange(i, i + name.len()) == name <==> name_stands_at(line, name, i),
{
    let part = line.subrange(i, i + name.len());
    assert(ascii_lower(line).subrange(i, i + name.len()) =~= ascii_lower(part));
    lemma_lower_is_the_word(part, name);
}

/// A header's value is what follows the first place at which its name stands, in any mix of cases,
/// up to the next quotation mark or the end of the line.
pub proof fn law_header_value_follows_its_name(
    line: Seq<char>,
    name: Seq<char>,
    i: int,
    value: Seq<char>,
    tail: Seq<char>,
)
    requires
        is_lower(name),
        name_stands_at(line, name, i),
        forall|j: int| 0 <= j < i ==> !#[trigger] name_stands_at(line, name, j),
        line.skip(i + name.len()) == value + tail,
        !value.contains('"'),
        tail.len() > 0 ==> tail[0] == '"',
    ensures
        header_value(line, name) == Some(value),
{
    let lower = ascii_lower(line);
    law_find_gives_the_first_place(lower, name);
    lemma_name_in_lower_case(line, name, i);
    match find(lower, name) {
        Some(k) => {
            lemma_name_in_lower_case(line, name, k);
            if k < i {
                assert(!name_stands_at(line, name, k));
            }
            if i < k {
                assert(lower.subrange(i, i + name.len()) != name);
            }
        },
        None => {
            assert(lower.subrange(i, i + name.len()) != name);
        },
    }
    let after = line.skip(i + name.len());
    assert forall|j: int| 0 <= j < value.len() implies after[j] != '"' by {
        assert(value.contains(value[j]));
    }
    lemma_first_index_unique(after, '"', value.len() as int);
    assert(after.take(value.len() as int) =~= value);
}

/// A line has no value for a header exactly where its name stands nowhere in it.
pub proof fn law_header_without_its_name_has_no_value(line: Seq<char>, name: Seq<char>)
    requires
        is_lower(name),
    ensures
        header_value(line, name) is None <==> forall|j: int| !#[trigger]
            name_stands_at(line, name, j),
{
    let lower = ascii_lower(line);
    law_find_gives_the_first_place(lower, name);
    match find(lower, name) {
        Some(k) => {
            lemma_name_in_lower_case(line, name, k);
        },
        None => {
            assert forall|j: int| !#[trigger] name_stands_at(line, name, j) by {
                if 0 <= j <= line.len() - name.len() {
                    lemma_name_in_lower_case(line, name, j);
                    assert(lower.subrange(j, j + name.len()) != name);
                }
            }
        },
    }
}

/// The client of a request is the first public address that its X-Forwarded-For header lists
/// between commas, white space around it left out.
pub proof fn law_forwarded_for_comes_first(
    line: &str,
    ip: Option<String>,
    value: Seq<char>,
    k: int,
)
    requires
        call_ensures(IpBanEngine::extract_forwarded_ip, (line,), ip),
        header_value(line@, "x-forwarded-for:"@) == Some(value),
        0 <= k < split(value, ',').len(),
        is_public_address(trim(split(value, ',')[k], CharClass::WhiteSpace)),
        forall|j: int|
            0 <= j < k ==> !is_public_address(
                trim(#[trigger] split(value, ',')[j], CharClass::WhiteSpace),
            ),
    ensures
        ip matches Some(text) && text@ == trim(split(value, ',')[k], CharClass::WhiteSpace),
{
    let parts = split(value, ',');
    law_first_public_is_the_first(parts);
    match first_public(parts) {
        Some(found) => {
            let i = choose|i: int|
                0 <= i < parts.len() && found == trim(#[trigger] parts[i], CharClass::WhiteSpace)
                    && is_public_address(found) && forall|j: int|
                    0 <= j < i ==> !is_public_address(
                        trim(#[trigger] parts[j], CharClass::WhiteSpace),
                    );
            if i < k {
                assert(!is_public_address(trim(parts[i], CharClass::WhiteSpace)));
            }
            if k < i {
                assert(!is_public_address(trim(parts[k], CharClass::WhiteSpace)));
            }
        },
        None => {
            assert(!is_public_address(trim(parts[k], CharClass::WhiteSpace)));
        },
    }
}

/// Where that header gives none, the client is the one public address that the X-Real-IP header
/// holds, and unknown where it holds none either.
pub proof fn law_real_ip_comes_second(line: &str, ip: Option<String>)
    requires
        call_ensures(IpBanEngine::extract_forwarded_ip, (line,), ip),
        header_value(line@, "x-forwarded-for:"@) matches Some(value) ==> forall|j: int|
            0 <= j < split(value, ',').len() ==> !is_public_address(
                trim(#[trigger] split(value, ',')[j], CharClass::WhiteSpace),
            ),
    ensures
        match header_value(line@, "x-real-ip:"@) {
            Some(value) => {
                let text = trim(value, CharClass::WhiteSpace);
                &&& is_public_address(text) ==> (ip matches Some(found) && found@ == text)
                &&& !is_public_address(text) ==> ip is None
            },
            None => ip is None,
        },
{
    if let Some(value) = header_value(line@, "x-forwarded-for:"@) {
        let parts = split(value, ',');
        law_first_public_is_the_first(parts);
        if first_public(parts) is Some {
            let found = first_public(parts)->0;
            let i = choose|i: int|
                0 <= i < parts.len() && found == trim(#[trigger] parts[i], CharClass::WhiteSpace)
                    && is_public_address(found) && forall|j: int|
                    0 <= j < i ==> !is_public_address(
                        trim(#[trigger] parts[j], CharClass::WhiteSpace),
                    );
            assert(!is_public_address(trim(parts[i], CharClass::WhiteSpace)));
        }
    }
    if let Some(value) = header_value(line@, "x-real-ip:"@) {
        law_first_public_is_the_first(seq![value]);
        let one = seq![value];
        assert(one[0] == value);
        if first_public(one) is None {
            assert(!is_public_address(trim(one[0], CharClass::WhiteSpace)));
        }
    }
}

} // verus!
