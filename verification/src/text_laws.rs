//! What the functions on text come to, in terms of the characters themselves.

use crate::text::{
    ascii_lower, decimal, decimal_text, decimal_up_to, digit_char, digits_value, find, find_from,
    first_index, is_digit, lemma_first_index, lower_char, trim, trim_end, trim_start,
    unsigned_part, CharClass,
};
use vstd::arithmetic::power::{lemma_pow0, lemma_pow_adds, lemma_pow1, pow};
use vstd::prelude::*;

verus! {

/// Lower casing turns each of the 26 letters from 'A' on into the one of the same place from 'a'
/// on.
pub proof fn law_letters_turn_to_lower_case(k: int)
    requires
        0 <= k < 26,
    ensures
        lower_char((0x41 + k) as char) == (0x61 + k) as char,
{
}

/// Lower casing leaves every character alone that is no upper case ASCII letter.
pub proof fn law_other_characters_keep_their_case(c: char)
    requires
        (c as u32) < 0x41 || (c as u32) > 0x5a,
    ensures
        lower_char(c) == c,
{
}

/// Lower casing a text is lower casing each of its characters.
pub proof fn law_text_is_lowered_by_characters(s: Seq<char>, i: int)
    requires
        0 <= i < s.len(),
    ensures
        ascii_lower(s).len() == s.len(),
        ascii_lower(s)[i] == lower_char(s[i]),
{
}

/// White space is what Unicode calls so, and a dot is a full stop.
pub proof fn law_character_classes(c: char)
    ensures
        CharClass::Dot.has(c) <==> c as u32 == 0x2e,
        CharClass::WhiteSpace.has(c) <==> {
            let u = c as u32;
            ||| u == 0x09 || u == 0x0a || u == 0x0b || u == 0x0c || u == 0x0d
            ||| u == 0x20 || u == 0x85 || u == 0xa0 || u == 0x1680
            ||| u == 0x2000 || u == 0x2001 || u == 0x2002 || u == 0x2003 || u == 0x2004
            ||| u == 0x2005 || u == 0x2006 || u == 0x2007 || u == 0x2008 || u == 0x2009
            ||| u == 0x200a || u == 0x2028 || u == 0x2029 || u == 0x202f || u == 0x205f
            ||| u == 0x3000
        },
{
}

proof fn lemma_trim_start_of(pre: Seq<char>, rest: Seq<char>, class: CharClass)
    requires
        forall|i: int| 0 <= i < pre.len() ==> class.has(#[trigger] pre[i]),
        rest.len() > 0 ==> !class.has(rest[0]),
    ensures
        trim_start(pre + rest, class) == rest,
    decreases pre.len(),
{
    if pre.len() == 0 {
        assert(pre + rest =~= rest);
    } else {
        assert((pre + rest)[0] == pre[0]);
        assert((pre + rest).drop_first() =~= pre.drop_first() + rest);
        lemma_trim_start_of(pre.drop_first(), rest, class);
    }
}

proof fn lemma_trim_end_of(rest: Seq<char>, post: Seq<char>, class: CharClass)
    requires
        forall|i: int| 0 <= i < post.len() ==> class.has(#[trigger] post[i]),
        rest.len() > 0 ==> !class.has(rest.last()),
    ensures
        trim_end(rest + post, class) == rest,
    decreases post.len(),
{
    if post.len() == 0 {
        assert(rest + post =~= rest);
    } else {
        assert((rest + post).last() == post.last());
        assert((rest + post).drop_last() =~= rest + post.drop_last());
        lemma_trim_end_of(rest, post.drop_last(), class);
    }
}

/// Trimming takes off all of the class at both ends and nothing else: around a core that is
/// empty or begins and ends otherwise, it leaves the core.
pub proof fn law_trimming_leaves_the_core(
    pre: Seq<char>,
    core: Seq<char>,
    post: Seq<char>,
    class: CharClass,
)
    requires
        forall|i: int| 0 <= i < pre.len() ==> class.has(#[trigger] pre[i]),
        forall|i: int| 0 <= i < post.len() ==> class.has(#[trigger] post[i]),
        core.len() > 0 ==> !class.has(core[0]) && !class.has(core.last()),
    ensures
        trim(pre + core + post, class) == core,
{
    if core.len() > 0 {
        assert(pre + core + post =~= pre + (core + post));
        assert((core + post)[0] == core[0]);
        lemma_trim_start_of(pre, core + post, class);
        lemma_trim_end_of(core, post, class);
    } else {
        let all = pre + post;
        assert(pre + core + post =~= all);
        assert forall|i: int| 0 <= i < all.len() implies class.has(#[trigger] all[i]) by {
            if i < pre.len() {
                assert(all[i] == pre[i]);
            } else {
                assert(all[i] == post[i - pre.len()]);
            }
        }
        assert(all + core =~= all);
        lemma_trim_start_of(all, core, class);
        assert(trim_end(core, class) == core);
    }
}

/// The first index of a character is that of its first occurrence.
pub proof fn law_first_index_is_the_first(s: Seq<char>, c: char)
    ensures
        s.contains(c) ==> 0 <= first_index(s, c) < s.len() && s[first_index(s, c)] == c,
        !s.contains(c) ==> first_index(s, c) == s.len(),
        forall|j: int| 0 <= j < first_index(s, c) ==> s[j] != c,
{
    lemma_first_index(s, c);
    if s.contains(c) {
        let k = choose|k: int| 0 <= k < s.len() && s[k] == c;
        if first_index(s, c) >= s.len() {
            assert(s[k] != c);
        }
    } else if first_index(s, c) < s.len() {
        assert(s.contains(s[first_index(s, c)]));
    }
}

proof fn lemma_find_from(s: Seq<char>, pat: Seq<char>, i: int)
    requires
        0 <= i,
    ensures
        match find_from(s, pat, i) {
            Some(k) => i <= k <= s.len() - pat.len() && s.subrange(k, k + pat.len()) == pat
                && forall|j: int|
                i <= j < k ==> #[trigger] s.subrange(j, j + pat.len()) != pat,
            None => forall|j: int|
                i <= j <= s.len() - pat.len() ==> #[trigger] s.subrange(j, j + pat.len()) != pat,
        },
    decreases s.len() + 1 - i,
{
    if i + pat.len() <= s.len() && s.subrange(i, i + pat.len()) != pat {
        lemma_find_from(s, pat, i + 1);
    }
}

/// Searching gives the first place at which the pattern stands, and none only where it stands
/// nowhere.
pub proof fn law_find_gives_the_first_place(s: Seq<char>, pat: Seq<char>)
    ensures
        match find(s, pat) {
            Some(k) => 0 <= k <= s.len() - pat.len() && s.subrange(k, k + pat.len()) == pat
                && forall|j: int|
                0 <= j < k ==> #[trigger] s.subrange(j, j + pat.len()) != pat,
            None => forall|j: int|
                0 <= j <= s.len() - pat.len() ==> #[trigger] s.subrange(j, j + pat.len()) != pat,
        },
{
    lemma_find_from(s, pat, 0);
}

/// The value of a row of digits by their places: each digit counts ten times the one behind it.
pub open spec fn place_value(digits: Seq<char>) -> int
    decreases digits.len(),
{
    if digits.len() == 0 {
        0
    } else {
        (digits[0] as int - 0x30) * pow(10, (digits.len() - 1) as nat) + place_value(
            digits.drop_first(),
        )
    }
}

/// Whether the text holds digits only.
pub open spec fn only_digits(s: Seq<char>) -> bool {
    forall|i: int| 0 <= i < s.len() ==> 0x30 <= (#[trigger] s[i]) as int <= 0x39
}

proof fn lemma_place_value_push(s: Seq<char>, c: char)
    ensures
        place_value(s.push(c)) == 10 * place_value(s) + (c as int - 0x30),
    decreases s.len(),
{
    let longer = s.push(c);
    if s.len() == 0 {
        assert(longer.drop_first() =~= Seq::<char>::empty());
        lemma_pow0(10);
        let d = c as int - 0x30;
        assert(longer[0] == c);
        assert(d * pow(10, 0) == d) by (nonlinear_arith)
            requires
                pow(10, 0) == 1,
        ;
        assert(place_value(longer.drop_first()) == 0);
        assert(place_value(s) == 0);
    } else {
        assert(longer.drop_first() =~= s.drop_first().push(c));
        lemma_place_value_push(s.drop_first(), c);
        let n = (s.len() - 1) as nat;
        lemma_pow_adds(10, 1, n);
        lemma_pow1(10);
        assert(pow(10, s.len()) == 10 * pow(10, n));
        assert(longer[0] == s[0]);
        assert((longer.len() - 1) as nat == s.len());
        let d = s[0] as int - 0x30;
        assert(d * (10 * pow(10, n)) == 10 * (d * pow(10, n))) by (nonlinear_arith);
    }
}

pub proof fn lemma_digits_value_is_place_value(s: Seq<char>)
    ensures
        digits_value(s) == place_value(s),
    decreases s.len(),
{
    if s.len() > 0 {
        lemma_digits_value_is_place_value(s.drop_last());
        lemma_place_value_push(s.drop_last(), s.last());
        assert(s.drop_last().push(s.last()) =~= s);
    }
}

/// A row of digits reads as the number that its places give, with or without a plus sign in
/// front.
pub proof fn law_digits_read_by_their_places(digits: Seq<char>)
    requires
        digits.len() > 0,
        only_digits(digits),
    ensures
        decimal(digits) == Some(place_value(digits)),
        decimal(seq!['+'] + digits) == Some(place_value(digits)),
{
    lemma_digits_value_is_place_value(digits);
    assert(0x30 <= digits[0] as int <= 0x39);
    assert((seq!['+'] + digits).skip(1) =~= digits);
    assert forall|i: int| 0 <= i < digits.len() implies is_digit(#[trigger] digits[i]) by {
        assert(0x30 <= digits[i] as int <= 0x39);
    }
}

/// Nothing else reads as a number: neither a text without digits, nor one that holds anything but
/// digits, a plus sign in front apart.
pub proof fn law_other_texts_are_no_numbers(s: Seq<char>)
    ensures
        decimal(s) is Some <==> {
            ||| s.len() > 0 && only_digits(s)
            ||| s.len() > 1 && s[0] as int == 0x2b && only_digits(s.skip(1))
        },
{
    let body = unsigned_part(s);
    if decimal(s) is Some {
        assert forall|i: int| 0 <= i < body.len() implies 0x30 <= (#[trigger] body[i]) as int
            <= 0x39 by {
            assert(is_digit(body[i]));
        }
    }
    if s.len() > 0 && only_digits(s) {
        law_digits_read_by_their_places(s);
    }
    if s.len() > 1 && s[0] as int == 0x2b && only_digits(s.skip(1)) {
        law_digits_read_by_their_places(s.skip(1));
        assert(seq!['+'] + s.skip(1) =~= s);
    }
}

/// A number past the limit does not read, and any other reads as without a limit.
pub proof fn law_numbers_are_limited(s: Seq<char>, max: int)
    ensures
        decimal_up_to(s, max) is Some <==> decimal(s) is Some && decimal(s)->0 <= max,
        decimal_up_to(s, max) is Some ==> decimal_up_to(s, max) == decimal(s),
{
}

/// A number is written in digits whose places give it, and without a zero in front unless it is
/// zero.
pub proof fn law_numbers_are_written_by_their_places(n: int)
    requires
        n >= 0,
    ensures
        decimal_text(n).len() > 0,
        only_digits(decimal_text(n)),
        place_value(decimal_text(n)) == n,
        decimal_text(n)[0] as int == 0x30 ==> decimal_text(n).len() == 1,
    decreases n,
{
    let s = decimal_text(n);
    if n < 10 {
        let none = Seq::<char>::empty();
        assert(s =~= none.push(digit_char(n)));
        lemma_place_value_push(none, digit_char(n));
    } else {
        let front = decimal_text(n / 10);
        law_numbers_are_written_by_their_places(n / 10);
        lemma_place_value_push(front, digit_char(n % 10));
        assert forall|i: int| 0 <= i < s.len() implies 0x30 <= (#[trigger] s[i]) as int
            <= 0x39 by {
            if i < front.len() {
                assert(s[i] == front[i]);
            }
        }
        assert(s[0] == front[0]);
        if front[0] as int == 0x30 {
            assert(front.drop_first() =~= Seq::<char>::empty());
            assert(place_value(front.drop_first()) == 0);
            assert(0 * pow(10, 0) == 0) by (nonlinear_arith);
            assert(place_value(front) == 0);
        }
    }
}

/// Whether the two characters are the same, or the same ASCII letter in another case.
pub open spec fn same_letter(a: char, b: char) -> bool {
    let (x, y) = (a as int, b as int);
    ||| x == y
    ||| 0x41 <= x <= 0x5a && y == x + 0x20
    ||| 0x41 <= y <= 0x5a && x == y + 0x20
}

/// Whether the two texts differ in the case of ASCII letters at most.
pub open spec fn differ_in_case_only(a: Seq<char>, b: Seq<char>) -> bool {
    &&& a.len() == b.len()
    &&& forall|i: int| 0 <= i < a.len() ==> same_letter(#[trigger] a[i], b[i])
}

/// Whether the text holds no upper case ASCII letter.
pub open spec fn is_lower(s: Seq<char>) -> bool {
    forall|i: int| 0 <= i < s.len() ==> !(0x41 <= (#[trigger] s[i]) as int <= 0x5a)
}

pub proof fn lemma_lower_is_the_word(s: Seq<char>, word: Seq<char>)
    requires
        is_lower(word),
    ensures
        ascii_lower(s) == word <==> differ_in_case_only(s, word),
{
    let low = ascii_lower(s);
    if low == word {
        assert forall|i: int| 0 <= i < s.len() implies same_letter(#[trigger] s[i], word[i]) by {
            assert(low[i] == lower_char(s[i]));
        }
    }
    if differ_in_case_only(s, word) {
        assert forall|i: int| 0 <= i < s.len() implies lower_char(s[i]) == word[i] by {
            assert(same_letter(s[i], word[i]));
            assert(!(0x41 <= word[i] as int <= 0x5a));
        }
        assert(low =~= word);
    }
}

} // verus!
