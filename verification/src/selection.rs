//! Choosing a profile from the user's answer to a menu of profile names.
//!
//! The menu lists the stored names in alphabetical order, numbered from 1.
//! The answer is a number of the menu, a name, or nothing at all.

use vstd::prelude::*;
use vstd::string::StrSliceExecFns;
use crate::config::Config;
use crate::config::ProfileEntry;
use crate::config::has_key;

verus! {

/// `a` stands before `b` in the order of strings: at the first place where
/// they differ `a` has the smaller character, or `a` ends there and `b` goes on.
pub open spec fn lex_less(a: Seq<char>, b: Seq<char>) -> bool
    decreases a.len(),
{
    if b.len() == 0 {
        false
    } else if a.len() == 0 {
        true
    } else if a[0] != b[0] {
        (a[0] as int) < (b[0] as int)
    } else {
        lex_less(a.drop_first(), b.drop_first())
    }
}

/// Each text stands before all that follow it.
pub open spec fn strictly_sorted(texts: Seq<Seq<char>>) -> bool {
    forall|i: int, j: int| 0 <= i < j < texts.len() ==> lex_less(texts[i], texts[j])
}

/// The texts of a list of strings.
pub open spec fn texts_of(names: Seq<String>) -> Seq<Seq<char>> {
    Seq::new(names.len(), |i: int| names[i]@)
}

/// Of two different texts one stands before the other.
pub proof fn lemma_lex_total(a: Seq<char>, b: Seq<char>)
    requires
        a != b,
    ensures
        lex_less(a, b) || lex_less(b, a),
    decreases a.len(),
{
    if a.len() > 0 && b.len() > 0 && a[0] == b[0] {
        if a.drop_first() == b.drop_first() {
            assert(a =~= seq![a[0]] + a.drop_first());
            assert(b =~= seq![b[0]] + b.drop_first());
        }
        lemma_lex_total(a.drop_first(), b.drop_first());
    } else if a.len() == 0 && b.len() == 0 {
        assert(a =~= b);
    }
}

/// The order of strings is transitive.
pub proof fn lemma_lex_transitive(a: Seq<char>, b: Seq<char>, c: Seq<char>)
    requires
        lex_less(a, b),
        lex_less(b, c),
    ensures
        lex_less(a, c),
    decreases a.len(),
{
    if a.len() > 0 && a[0] == b[0] && b[0] == c[0] {
        lemma_lex_transitive(a.drop_first(), b.drop_first(), c.drop_first());
    }
}

/// Whether `a` stands before `b` in the order of strings.
pub fn str_less(a: &str, b: &str) -> (less: bool)
    ensures
        less == lex_less(a@, b@),
{
    let n: usize = a.unicode_len();
    let m: usize = b.unicode_len();
    let mut i: usize = 0;
    proof {
        assert(a@.skip(0) =~= a@);
        assert(b@.skip(0) =~= b@);
    }
    while i < n && i < m
        invariant
            i <= n,
            i <= m,
            n == a@.len(),
            m == b@.len(),
            lex_less(a@, b@) == lex_less(a@.skip(i as int), b@.skip(i as int)),
        decreases n - i,
    {
        let x: char = a.get_char(i);
        let y: char = b.get_char(i);
        proof {
            assert(a@.skip(i as int).drop_first() =~= a@.skip(i + 1));
            assert(b@.skip(i as int).drop_first() =~= b@.skip(i + 1));
        }
        if x != y {
            return (x as u32) < (y as u32);
        }
        i += 1;
    }
    i < m
}

/// `names` lists the keys of `entries`, each once, in alphabetical order.
pub open spec fn is_menu(entries: Seq<ProfileEntry>, names: Seq<Seq<char>>) -> bool {
    &&& names.len() == entries.len()
    &&& strictly_sorted(names)
    &&& forall|i: int| 0 <= i < names.len() ==> has_key(entries, #[trigger] names[i])
    &&& forall|k: int| 0 <= k < entries.len() ==> names.contains((#[trigger] entries[k]).key@)
}

/// The names of the stored profiles in alphabetical order.
pub fn sorted_names(config: &Config) -> (names: Vec<String>)
    ensures
        is_menu(config.entries(), texts_of(names@)),
{
    proof {
        use_type_invariant(config);
    }
    let mut names: Vec<String> = Vec::new();
    let mut k: usize = 0;
    while k < config.len()
        invariant
            k <= config.entries().len(),
            config.wf(),
            names@.len() == k,
            strictly_sorted(texts_of(names@)),
            forall|i: int|
                0 <= i < names@.len() ==> exists|e: int|
                    0 <= e < k && (#[trigger] config.entries()[e]).key@ == (#[trigger] names@[i])@,
            forall|e: int|
                0 <= e < k ==> texts_of(names@).contains((#[trigger] config.entries()[e]).key@),
        decreases config.entries().len() - k,
    {
        let key: &String = &config.entry(k).key;
        let mut p: usize = 0;
        while p < names.len() && str_less(names[p].as_str(), key.as_str())
            invariant
                p <= names@.len(),
                forall|i: int| 0 <= i < p ==> lex_less((#[trigger] names@[i])@, key@),
            decreases names@.len() - p,
        {
            p += 1;
        }
        let ghost before = names@;
        let fresh: String = key.clone();
        names.insert(p, fresh);
        proof {
            let old_texts = texts_of(before);
            let new_texts = texts_of(names@);
            assert(new_texts =~= old_texts.insert(p as int, key@));
            // the new key differs from every name that is already listed
            assert forall|i: int| 0 <= i < before.len() implies (#[trigger] before[i])@ != key@ by {
                let e = choose|e: int|
                    0 <= e < k && (#[trigger] config.entries()[e]).key@ == before[i]@;
                assert(config.entries()[e].key@ != config.entries()[k as int].key@);
            }
            // every name from the insertion point on stands behind the new key
            assert forall|i: int| p <= i < before.len() implies lex_less(key@, (#[trigger] before[i])@) by {
                lemma_lex_total(key@, before[p as int]@);
                if i > p {
                    assert(lex_less(old_texts[p as int], old_texts[i]));
                    lemma_lex_transitive(key@, before[p as int]@, before[i]@);
                }
            }
            assert forall|i: int, j: int| 0 <= i < j < new_texts.len() implies lex_less(
                new_texts[i],
                new_texts[j],
            ) by {
                if j < p {
                    assert(lex_less(old_texts[i], old_texts[j]));
                } else if j == p {
                    assert(new_texts[i] == before[i]@);
                } else if i < p {
                    assert(lex_less(old_texts[i], old_texts[j - 1]));
                } else if i == p {
                    assert(new_texts[j] == before[j - 1]@);
                } else {
                    assert(lex_less(old_texts[i - 1], old_texts[j - 1]));
                }
            }
            assert forall|i: int| 0 <= i < names@.len() implies exists|e: int|
                0 <= e < k + 1 && (#[trigger] config.entries()[e]).key@ == (#[trigger] names@[i])@ by {
                if i < p {
                    assert(names@[i] == before[i]);
                    let e = choose|e: int|
                        0 <= e < k && (#[trigger] config.entries()[e]).key@ == before[i]@;
                    assert(config.entries()[e].key@ == names@[i]@);
                } else if i == p {
                    assert(config.entries()[k as int].key@ == names@[i]@);
                } else {
                    assert(names@[i] == before[i - 1]);
                    let e = choose|e: int|
                        0 <= e < k && (#[trigger] config.entries()[e]).key@ == before[i - 1]@;
                    assert(config.entries()[e].key@ == names@[i]@);
                }
            }
            assert forall|e: int| 0 <= e < k + 1 implies new_texts.contains(
                (#[trigger] config.entries()[e]).key@,
            ) by {
                if e < k {
                    let i = choose|i: int|
                        0 <= i < old_texts.len() && old_texts[i] == config.entries()[e].key@;
                    if i < p {
                        assert(new_texts[i] == old_texts[i]);
                    } else {
                        assert(new_texts[i + 1] == old_texts[i]);
                    }
                } else {
                    assert(new_texts[p as int] == key@);
                }
            }
        }
        k += 1;
    }
    proof {
        assert forall|i: int| 0 <= i < texts_of(names@).len() implies has_key(
            config.entries(),
            #[trigger] texts_of(names@)[i],
        ) by {
            let e = choose|e: int|
                0 <= e < k && (#[trigger] config.entries()[e]).key@ == (names@[i])@;
            assert(config.entries()[e].key@ == texts_of(names@)[i]);
        }
    }
    names
}

/// The character is one of the ten decimal digits.
pub open spec fn is_digit(c: char) -> bool {
    0x30 <= c as int <= 0x39
}

/// Every character is a decimal digit.
pub open spec fn all_digits(digits: Seq<char>) -> bool {
    forall|i: int| 0 <= i < digits.len() ==> is_digit(#[trigger] digits[i])
}

/// The number that a row of decimal digits writes.
pub open spec fn decimal_value(digits: Seq<char>) -> int
    decreases digits.len(),
{
    if digits.len() == 0 {
        0
    } else {
        10 * decimal_value(digits.drop_last()) + (digits.last() as int - 0x30)
    }
}

/// The digits of a written number: the text without a leading plus sign.
pub open spec fn digits_of(text: Seq<char>) -> Seq<char> {
    if text.len() > 0 && text[0] == '+' {
        text.skip(1)
    } else {
        text
    }
}

/// The number that a text writes: one or more decimal digits, behind a
/// plus sign or none, whose value a `usize` holds. Any other text writes none.
pub open spec fn parsed_index(text: Seq<char>) -> Option<usize> {
    let digits = digits_of(text);
    if digits.len() > 0 && all_digits(digits) && decimal_value(digits) <= usize::MAX {
        Some(decimal_value(digits) as usize)
    } else {
        None
    }
}

/// A row of digits writes at least what any of its beginnings writes, and
/// nothing below zero.
pub proof fn lemma_decimal_value_grows(digits: Seq<char>, k: int)
    requires
        all_digits(digits),
        0 <= k <= digits.len(),
    ensures
        0 <= decimal_value(digits.take(k)) <= decimal_value(digits),
    decreases digits.len(),
{
    if k == digits.len() {
        assert(digits.take(k) =~= digits);
        if k > 0 {
            lemma_decimal_value_grows(digits.drop_last(), k - 1);
            assert(digits.drop_last().take(k - 1) =~= digits.drop_last());
            assert(is_digit(digits[k - 1]));
        }
    } else {
        lemma_decimal_value_grows(digits.drop_last(), k);
        assert(digits.drop_last().take(k) =~= digits.take(k));
        assert(is_digit(digits[digits.len() - 1]));
        lemma_decimal_value_grows(digits.drop_last(), digits.len() - 1);
        assert(digits.drop_last().take(digits.len() - 1) =~= digits.drop_last());
    }
}

/// Reads a number of the menu from the answer.
pub fn parse_index(text: &str) -> (number: Option<usize>)
    ensures
        number == parsed_index(text@),
{
    let n: usize = text.unicode_len();
    let start: usize = if n > 0 && text.get_char(0) == '+' {
        1
    } else {
        0
    };
    let ghost digits = digits_of(text@);
    proof {
        assert(digits =~= text@.skip(start as int));
        assert(digits.take(0) =~= Seq::<char>::empty());
    }
    if start == n {
        return None;
    }
    let mut value: usize = 0;
    let mut i: usize = start;
    while i < n
        invariant
            start <= i <= n,
            n == text@.len(),
            digits == digits_of(text@),
            digits == text@.skip(start as int),
            all_digits(digits.take(i - start)),
            value == decimal_value(digits.take(i - start)),
        decreases n - i,
    {
        let code: u32 = text.get_char(i) as u32;
        if code < 0x30 || code > 0x39 {
            assert(!is_digit(digits[i - start]));
            return None;
        }
        let digit: usize = (code - 0x30) as usize;
        proof {
            assert(digits.take(i - start + 1).drop_last() =~= digits.take(i - start));
            assert(digits.take(i - start + 1).last() == text@[i as int]);
            assert(all_digits(digits.take(i - start + 1))) by {
                assert forall|j: int| 0 <= j < i - start + 1 implies is_digit(
                    #[trigger] digits.take(i - start + 1)[j],
                ) by {
                    if j < i - start {
                        assert(digits.take(i - start)[j] == digits.take(i - start + 1)[j]);
                    }
                }
            }
        }
        if value > (usize::MAX - digit) / 10 {
            proof {
                if all_digits(digits) {
                    lemma_decimal_value_grows(digits, i - start + 1);
                }
            }
            return None;
        }
        value = value * 10 + digit;
        i += 1;
    }
    proof {
        assert(digits.take(n - start) =~= digits);
    }
    Some(value)
}

/// What an answer was taken for.
#[derive(Debug, Clone, Copy, PartialEq, Eq)]
pub enum Basis {
    /// Nothing was answered: the default profile is used.
    NoAnswer,
    /// The answer is a number of the menu.
    Number,
    /// The answer is a number, but none of the menu: the default profile is used.
    NumberOutOfRange,
    /// The answer is the name of a stored profile.
    Name,
    /// The answer is neither a number nor a stored name: the default profile is used.
    UnknownName,
}

/// The profile that is used, and what the answer was taken for.
#[derive(Debug, Clone, PartialEq, Eq)]
pub struct Selection {
    pub profile: String,
    pub basis: Basis,
}

/// What an answer is taken for, given the menu that was shown.
pub open spec fn basis_of(entries: Seq<ProfileEntry>, menu: Seq<Seq<char>>, answer: Seq<char>) -> Basis {
    if answer.len() == 0 {
        Basis::NoAnswer
    } else {
        match parsed_index(answer) {
            Some(number) => if 1 <= number <= menu.len() {
                Basis::Number
            } else {
                Basis::NumberOutOfRange
            },
            None => if has_key(entries, answer) {
                Basis::Name
            } else {
                Basis::UnknownName
            },
        }
    }
}

/// The profile that an answer selects: the menu's entry of that number, the
/// stored profile of that name, and the default in every other case.
pub open spec fn selected_name(
    default_name: Seq<char>,
    entries: Seq<ProfileEntry>,
    menu: Seq<Seq<char>>,
    answer: Seq<char>,
) -> Seq<char> {
    match basis_of(entries, menu, answer) {
        Basis::Number => menu[parsed_index(answer)->0 - 1],
        Basis::Name => answer,
        _ => default_name,
    }
}

/// Takes the user's answer, without the white space around it, for a number
/// of `menu`, else for a profile's name, and falls back on the default
/// profile where it is neither. A number counts from 1.
pub fn select_profile(config: &Config, menu: &Vec<String>, answer: &str) -> (selection: Selection)
    ensures
        selection.basis == basis_of(config.entries(), texts_of(menu@), answer@),
        selection.profile@ == selected_name(
            config.default_name(),
            config.entries(),
            texts_of(menu@),
            answer@,
        ),
{
    if answer.unicode_len() == 0 {
        return Selection { profile: config.default_profile().to_owned(), basis: Basis::NoAnswer };
    }
    match parse_index(answer) {
        Some(number) => {
            if number > 0 && number <= menu.len() {
                Selection { profile: menu[number - 1].clone(), basis: Basis::Number }
            } else {
                Selection {
                    profile: config.default_profile().to_owned(),
                    basis: Basis::NumberOutOfRange,
                }
            }
        },
        None => {
            if config.position(answer).is_some() {
                Selection { profile: answer.to_owned(), basis: Basis::Name }
            } else {
                Selection {
                    profile: config.default_profile().to_owned(),
                    basis: Basis::UnknownName,
                }
            }
        },
    }
}

/// The character is white space, as Unicode's property `White_Space` has it.
pub uninterp spec fn white_space(c: char) -> bool;

/// The text from its first character on that is no white space.
pub open spec fn without_leading_space(text: Seq<char>) -> Seq<char>
    decreases text.len(),
{
    if text.len() > 0 && white_space(text.first()) {
        without_leading_space(text.drop_first())
    } else {
        text
    }
}

/// The text up to its last character that is no white space.
pub open spec fn without_trailing_space(text: Seq<char>) -> Seq<char>
    decreases text.len(),
{
    if text.len() > 0 && white_space(text.last()) {
        without_trailing_space(text.drop_last())
    } else {
        text
    }
}

/// The text without the white space at its two ends.
pub open spec fn trimmed(text: Seq<char>) -> Seq<char> {
    without_trailing_space(without_leading_space(text))
}

/// `str::trim`: the text without leading and trailing white space.
/// Trusted: all the white space at either end is cut off, nothing else is,
/// and white space is what has the property `White_Space`. The second
/// clause says of the result what `lemma_trimmed` proves of `trimmed`.
#[verifier::external_body]
fn trim_text(text: &str) -> (inner: &str)
    ensures
        inner@ == trimmed(text@),
        inner@.len() > 0 ==> !white_space(inner@.first()) && !white_space(inner@.last()),
{
    text.trim()
}

/// Cutting off leading white space leaves the text from some place on:
/// all before that place is white space, and the character there is none.
proof fn lemma_without_leading_space(text: Seq<char>) -> (start: int)
    ensures
        0 <= start <= text.len(),
        without_leading_space(text) == text.skip(start),
        forall|i: int| 0 <= i < start ==> white_space(#[trigger] text[i]),
        start < text.len() ==> !white_space(text[start]),
    decreases text.len(),
{
    if text.len() > 0 && white_space(text.first()) {
        let rest = text.drop_first();
        let inner = lemma_without_leading_space(rest);
        assert(rest.skip(inner) =~= text.skip(inner + 1));
        assert forall|i: int| 0 <= i < inner + 1 implies white_space(#[trigger] text[i]) by {
            if i > 0 {
                assert(text[i] == rest[i - 1]);
            }
        }
        if inner + 1 < text.len() {
            assert(text[inner + 1] == rest[inner]);
        }
        inner + 1
    } else {
        assert(text.skip(0) =~= text);
        0
    }
}

/// Cutting off trailing white space leaves the text up to some place: all
/// from that place on is white space, and the character before it is none.
proof fn lemma_without_trailing_space(text: Seq<char>) -> (end: int)
    ensures
        0 <= end <= text.len(),
        without_trailing_space(text) == text.take(end),
        forall|i: int| end <= i < text.len() ==> white_space(#[trigger] text[i]),
        end > 0 ==> !white_space(text[end - 1]),
    decreases text.len(),
{
    if text.len() > 0 && white_space(text.last()) {
        let rest = text.drop_last();
        let inner = lemma_without_trailing_space(rest);
        assert(rest.take(inner) =~= text.take(inner));
        assert forall|i: int| inner <= i < text.len() implies white_space(#[trigger] text[i]) by {
            if i < text.len() - 1 {
                assert(text[i] == rest[i]);
            }
        }
        if inner > 0 {
            assert(text[inner - 1] == rest[inner - 1]);
        }
        inner
    } else {
        assert(text.take(text.len() as int) =~= text);
        text.len() as int
    }
}

/// The trimmed text is one stretch of the text: nothing but white space
/// stands before it and behind it, and where it is not empty it neither
/// begins nor ends with white space.
pub proof fn lemma_trimmed(text: Seq<char>) -> (ends: (int, int))
    ensures
        0 <= ends.0 <= ends.1 <= text.len(),
        trimmed(text) == text.subrange(ends.0, ends.1),
        forall|i: int| 0 <= i < ends.0 ==> white_space(#[trigger] text[i]),
        forall|i: int| ends.1 <= i < text.len() ==> white_space(#[trigger] text[i]),
        ends.0 < ends.1 ==> !white_space(text[ends.0]) && !white_space(text[ends.1 - 1]),
{
    let start = lemma_without_leading_space(text);
    let tail = text.skip(start);
    let kept = lemma_without_trailing_space(tail);
    assert(tail.take(kept) =~= text.subrange(start, start + kept));
    assert forall|i: int| start + kept <= i < text.len() implies white_space(
        #[trigger] text[i],
    ) by {
        assert(text[i] == tail[i - start]);
    }
    if kept > 0 {
        assert(tail[0] == text[start]);
        assert(tail[kept - 1] == text[start + kept - 1]);
    }
    (start, start + kept)
}

/// `select_profile` on a line as it was read: the white space around the
/// answer, the line's end with it, does not count.
pub fn select_from_line(config: &Config, menu: &Vec<String>, line: &str) -> (selection: Selection)
    ensures
        selection.basis == basis_of(config.entries(), texts_of(menu@), trimmed(line@)),
        selection.profile@ == selected_name(
            config.default_name(),
            config.entries(),
            texts_of(menu@),
            trimmed(line@),
        ),
{
    select_profile(config, menu, trim_text(line))
}

} // verus!
