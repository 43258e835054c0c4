//! Regular-expression searches, made by the `regex` crate.
//!
//! A pattern is compiled for each search. What a search returns is a value
//! of the pattern and the text alone; for a pattern that is an alternation of
//! plain words the result is stated in full.

use crate::text::{chars_of, find, occurs_in};
use vstd::prelude::*;

verus! {

/// The longest alternation of plain words of which `pattern_matches` states
/// the result.
pub const MAX_PLAIN_PATTERN: usize = 512;

/// A character that stands for itself in a pattern: an ASCII letter, an
/// ASCII digit or a space.
pub open spec fn is_plain_char(c: char) -> bool {
    let n = c as u32;
    ||| 0x61 <= n <= 0x7A
    ||| 0x41 <= n <= 0x5A
    ||| 0x30 <= n <= 0x39
    ||| n == 0x20
}

/// Every character of `s` stands for itself in a pattern.
pub open spec fn is_plain(s: Seq<char>) -> bool {
    forall|i: int| 0 <= i < s.len() ==> is_plain_char(#[trigger] s[i])
}

/// Every word of `words` is plain.
pub open spec fn all_plain(words: Seq<Seq<char>>) -> bool {
    forall|k: int| 0 <= k < words.len() ==> is_plain(#[trigger] words[k])
}

/// The pattern that offers `words` as alternatives: the words joined by `|`.
pub open spec fn alternation(words: Seq<Seq<char>>) -> Seq<char>
    decreases words.len(),
{
    if words.len() == 0 {
        Seq::empty()
    } else if words.len() == 1 {
        words[0]
    } else {
        alternation(words.drop_last()).push('|') + words.last()
    }
}

/// One of `words` is a contiguous part of `text`.
pub open spec fn any_occurs(words: Seq<Seq<char>>, text: Seq<char>) -> bool {
    exists|k: int| 0 <= k < words.len() && occurs_in(#[trigger] words[k], text)
}

/// What a search for `pattern` in `text` returns: `None` where `pattern` does
/// not compile, else whether it matches anywhere in `text`.
pub uninterp spec fn regex_search(pattern: Seq<char>, text: Seq<char>) -> Option<bool>;

/// What a search for every match of `pattern` in `text` captures: `None`
/// where `pattern` does not compile, else for each match in turn, leftmost
/// first and without overlap, the text of its first group, if the group took
/// part in the match.
pub uninterp spec fn regex_first_groups(pattern: Seq<char>, text: Seq<char>) -> Option<
    Seq<Option<Seq<char>>>,
>;

/// The character sequences of a list of optional strings.
pub open spec fn group_views(groups: Seq<Option<String>>) -> Seq<Option<Seq<char>>> {
    groups.map_values(
        |g: Option<String>|
            match g {
                Some(s) => Some(s@),
                None => None,
            },
    )
}

/// `regex::Regex::new` on `pattern`, then `Regex::is_match` on `text`.
///
/// The result is a value of the two strings. Where `pattern` is at most
/// `MAX_PLAIN_PATTERN` characters long and is one or more plain words joined
/// by `|`, it compiles, and it matches exactly when one of the words is a
/// contiguous part of `text`: a plain character matches itself alone, `|`
/// offers alternatives, and a search may start anywhere in the text.
#[verifier::external_body]
pub(crate) fn pattern_matches(pattern: &str, text: &str) -> (r: Option<bool>)
    ensures
        r == regex_search(pattern@, text@),
        forall|words: Seq<Seq<char>>|
            pattern@ == #[trigger] alternation(words) && words.len() > 0 && all_plain(words)
                && pattern@.len() <= MAX_PLAIN_PATTERN ==> r == Some(any_occurs(words, text@)),
{
    match regex::Regex::new(pattern) {
        Ok(re) => Some(re.is_match(text)),
        Err(_) => None,
    }
}

/// `regex::Regex::new` on `pattern`, then `Regex::captures_iter` on `text`,
/// taking from each match `Captures::get(1)`.
#[verifier::external_body]
pub(crate) fn pattern_first_groups(pattern: &str, text: &str) -> (r: Option<Vec<Option<String>>>)
    ensures
        (r is Some) == (regex_first_groups(pattern@, text@) is Some),
        r matches Some(groups) ==> group_views(groups@) == regex_first_groups(
            pattern@,
            text@,
        )->0,
{
    match regex::Regex::new(pattern) {
        Ok(re) => Some(
            re.captures_iter(text).map(|c| c.get(1).map(|m| m.as_str().to_string())).collect(),
        ),
        Err(_) => None,
    }
}

/// The words joined by `|`.
pub fn join_alternatives(words: &Vec<&str>) -> (pattern: String)
    ensures
        pattern@ == alternation(words@.map_values(|w: &str| w@)),
{
    let ghost views = words@.map_values(|w: &str| w@);
    let mut pattern = String::new();
    let mut k: usize = 0;
    proof {
        reveal_strlit("|");
        assert(views.take(0) =~= Seq::<Seq<char>>::empty());
    }
    while k < words.len()
        invariant
            k <= words.len(),
            views == words@.map_values(|w: &str| w@),
            pattern@ == alternation(views.take(k as int)),
            "|"@ == seq!['|'],
        decreases words.len() - k,
    {
        proof {
            let next = views.take(k + 1);
            assert(next.drop_last() =~= views.take(k as int));
            assert(next.last() == words@[k as int]@);
        }
        if k > 0 {
            pattern.append("|");
            proof {
                assert(alternation(views.take(k as int)) + seq!['|'] =~= alternation(
                    views.take(k as int),
                ).push('|'));
            }
        } else {
            proof {
                assert(alternation(views.take(0)) + words@[0]@ =~= words@[0]@);
            }
        }
        pattern.append(words[k]);
        k += 1;
    }
    proof {
        assert(views.take(k as int) =~= views);
    }
    pattern
}

/// Whether every character of `word` stands for itself in a pattern.
pub fn is_plain_word(word: &str) -> (r: bool)
    ensures
        r == is_plain(word@),
{
    let cs = chars_of(word);
    let mut k: usize = 0;
    while k < cs.len()
        invariant
            k <= cs.len(),
            cs@ == word@,
            forall|i: int| 0 <= i < k ==> is_plain_char(#[trigger] cs@[i]),
        decreases cs.len() - k,
    {
        let n: u32 = cs[k] as u32;
        let plain = (0x61 <= n && n <= 0x7A) || (0x41 <= n && n <= 0x5A) || (0x30 <= n && n
            <= 0x39) || n == 0x20;
        if !plain {
            assert(!is_plain_char(word@[k as int]));
            return false;
        }
        k += 1;
    }
    true
}

/// Whether every word of `words` is plain.
pub fn are_plain_words(words: &Vec<&str>) -> (r: bool)
    ensures
        r == all_plain(words@.map_values(|w: &str| w@)),
{
    let ghost views = words@.map_values(|w: &str| w@);
    let mut k: usize = 0;
    while k < words.len()
        invariant
            k <= words.len(),
            views == words@.map_values(|w: &str| w@),
            forall|i: int| 0 <= i < k ==> is_plain(#[trigger] views[i]),
        decreases words.len() - k,
    {
        if !is_plain_word(words[k]) {
            assert(!is_plain(views[k as int]));
            return false;
        }
        k += 1;
    }
    true
}

/// Whether one of `words` is a contiguous part of `text`.
///
/// Plain words are handed to the regular-expression engine as one
/// alternation; words that a pattern cannot hold as they stand are looked
/// for one by one.
pub fn any_word_occurs(words: &Vec<&str>, text: &str) -> (r: bool)
    ensures
        r == any_occurs(words@.map_values(|w: &str| w@), text@),
{
    let ghost views = words@.map_values(|w: &str| w@);
    if words.len() > 0 && are_plain_words(words) {
        let pattern = join_alternatives(words);
        if chars_of(pattern.as_str()).len() <= MAX_PLAIN_PATTERN {
            match pattern_matches(pattern.as_str(), text) {
                Some(found) => {
                    return found;
                },
                None => {},
            }
        }
    }
    let hay = chars_of(text);
    let mut k: usize = 0;
    while k < words.len()
        invariant
            k <= words.len(),
            hay@ == text@,
            views == words@.map_values(|w: &str| w@),
            forall|i: int| 0 <= i < k ==> !occurs_in(#[trigger] views[i], text@),
        decreases words.len() - k,
    {
        let needle = chars_of(words[k]);
        if find(&hay, &needle).is_some() {
            assert(occurs_in(views[k as int], text@));
            return true;
        }
        k += 1;
    }
    false
}

} // verus!
