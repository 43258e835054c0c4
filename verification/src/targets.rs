//! The target generator: the words of a run, their mutations, and the list
//! of URLs that the dispatcher requests.

use crate::text::{
    chars_of, fields, is_blank, is_blank_str, split_chars, string_from_chars, string_views,
    to_uppercase, trim_end_char, trim_end_char_of, uppercase_of, views,
};
use vstd::prelude::*;

verus! {

/// The characters of which one is appended to a word as a mutation.
pub open spec fn specials() -> Seq<char> {
    seq!['\'', '"', '<', '>', ';', '|', '&']
}

/// The endpoints that stand for a parsed API description.
pub open spec fn openapi_endpoints() -> Seq<Seq<char>> {
    seq!["https://example.com/api/v1/users"@, "https://example.com/api/v1/login"@]
}

/// The five mutations of `word`: in upper case, reversed, followed by
/// `special`, between percent signs, and followed by `1`.
pub open spec fn mutations(word: Seq<char>, special: char) -> Seq<Seq<char>> {
    seq![
        uppercase_of(word),
        word.reverse(),
        word.push(special),
        seq!['%'] + word + seq!['%'],
        word.push('1'),
    ]
}

/// `out` holds, for each word in turn, its five mutations with some special
/// character.
pub open spec fn is_mutation_list(words: Seq<Seq<char>>, out: Seq<Seq<char>>) -> bool {
    &&& out.len() == 5 * words.len()
    &&& forall|k: int|
        0 <= k < words.len() ==> exists|c: char|
            specials().contains(c) && #[trigger] out.subrange(5 * k, 5 * k + 5) == mutations(
                words[k],
                c,
            )
}

/// `line` without the carriage return at its end, if it has one.
pub open spec fn without_return(line: Seq<char>) -> Seq<char> {
    if line.len() > 0 && line.last() == '\r' {
        line.drop_last()
    } else {
        line
    }
}

/// The lines of a text. A line ends at a line feed; a carriage return just
/// before the line feed belongs to the line ending. The last line needs no
/// line feed, and what follows the last line feed is a line only where it is
/// not empty.
pub open spec fn lines_of(text: Seq<char>) -> Seq<Seq<char>> {
    let pieces = fields(text, '\n');
    let ended = pieces.drop_last().map_values(|line: Seq<char>| without_return(line));
    if pieces.last().len() == 0 {
        ended
    } else {
        ended.push(pieces.last())
    }
}

/// A text has at least one field, whatever the separator.
pub proof fn lemma_fields_nonempty(s: Seq<char>, sep: char)
    ensures
        fields(s, sep).len() >= 1,
    decreases s.len(),
{
}

/// `list` followed by each of `more` that is neither in `list` nor earlier
/// in `more`.
pub open spec fn with_new(list: Seq<Seq<char>>, more: Seq<Seq<char>>) -> Seq<Seq<char>>
    decreases more.len(),
{
    if more.len() == 0 {
        list
    } else {
        let before = with_new(list, more.drop_last());
        if before.contains(more.last()) {
            before
        } else {
            before.push(more.last())
        }
    }
}

/// The targets of `words` under `base`: `base/word` for each word that is
/// not blank, in order.
pub open spec fn word_targets(base: Seq<char>, words: Seq<Seq<char>>) -> Seq<Seq<char>>
    decreases words.len(),
{
    if words.len() == 0 {
        Seq::empty()
    } else if is_blank(words.last()) {
        word_targets(base, words.drop_last())
    } else {
        word_targets(base, words.drop_last()).push(base.push('/') + words.last())
    }
}

/// The targets of a run: one for each word that is not blank, under `url`
/// without its trailing slashes, then the discovered URLs as they are.
pub open spec fn targets_of(url: Seq<char>, words: Seq<Seq<char>>, discovered: Seq<Seq<char>>) -> Seq<
    Seq<char>,
> {
    word_targets(trim_end_char(url, '/'), words) + discovered
}

/// `rand::seq::SliceRandom::choose` on the slice of `choices`, with
/// `rand::thread_rng`: one of the elements, or `None` for an empty slice.
/// Which element comes is left open.
#[verifier::external_body]
fn choose_one(choices: &Vec<char>) -> (c: Option<char>)
    ensures
        (c is Some) == (choices@.len() > 0),
        c matches Some(x) ==> choices@.contains(x),
{
    rand::seq::SliceRandom::choose(choices.as_slice(), &mut rand::thread_rng()).copied()
}

/// The special characters, in their order.
pub fn special_chars() -> (v: Vec<char>)
    ensures
        v@ == specials(),
{
    let mut v: Vec<char> = Vec::new();
    v.push('\'');
    v.push('"');
    v.push('<');
    v.push('>');
    v.push(';');
    v.push('|');
    v.push('&');
    proof {
        assert(v@ =~= specials());
    }
    v
}

/// The characters of `cs` in reverse order.
pub fn reversed(cs: &Vec<char>) -> (r: Vec<char>)
    ensures
        r@ == cs@.reverse(),
{
    let mut r: Vec<char> = Vec::new();
    let mut k: usize = cs.len();
    while k > 0
        invariant
            k <= cs.len(),
            r@.len() == cs.len() - k,
            forall|i: int| 0 <= i < r@.len() ==> r@[i] == cs@[cs.len() - 1 - i],
        decreases k,
    {
        k -= 1;
        r.push(cs[k]);
    }
    proof {
        assert(r@ =~= cs@.reverse());
    }
    r
}

/// The five mutations of `word` with `special` as the appended character.
pub fn mutations_of(word: &str, special: char) -> (out: Vec<String>)
    ensures
        string_views(out@) == mutations(word@, special),
{
    let cs = chars_of(word);
    let mut out: Vec<String> = Vec::new();
    out.push(to_uppercase(word));
    out.push(string_from_chars(&reversed(&cs)));
    let mut with_special = cs.clone();
    with_special.push(special);
    out.push(string_from_chars(&with_special));
    let mut wrapped: Vec<char> = Vec::new();
    wrapped.push('%');
    let mut k: usize = 0;
    while k < cs.len()
        invariant
            k <= cs.len(),
            wrapped@ == seq!['%'] + cs@.take(k as int),
        decreases cs.len() - k,
    {
        wrapped.push(cs[k]);
        proof {
            assert(wrapped@ =~= seq!['%'] + cs@.take(k + 1));
        }
        k += 1;
    }
    wrapped.push('%');
    proof {
        assert(cs@.take(cs@.len() as int) =~= cs@);
        assert(wrapped@ =~= seq!['%'] + cs@ + seq!['%']);
    }
    out.push(string_from_chars(&wrapped));
    let mut with_one = cs.clone();
    with_one.push('1');
    out.push(string_from_chars(&with_one));
    proof {
        assert(string_views(out@) =~= mutations(word@, special));
    }
    out
}

/// The mutations of every word, five for each, in the order of the words.
/// The special character that is appended is picked at random for each word.
pub fn mutate_wordlist(words: &Vec<String>) -> (out: Vec<String>)
    ensures
        is_mutation_list(string_views(words@), string_views(out@)),
{
    let choices = special_chars();
    let mut out: Vec<String> = Vec::new();
    let mut k: usize = 0;
    while k < words.len()
        invariant
            k <= words.len(),
            choices@ == specials(),
            is_mutation_list(string_views(words@).take(k as int), string_views(out@)),
        decreases words.len() - k,
    {
        let special = choose_one(&choices).unwrap();
        let ghost before = string_views(out@);
        let mut five = mutations_of(words[k].as_str(), special);
        let ghost added = string_views(five@);
        out.append(&mut five);
        proof {
            let now = string_views(out@);
            assert(now =~= before + added);
            let upto = string_views(words@).take(k + 1);
            assert forall|j: int| 0 <= j < upto.len() implies exists|c: char|
                specials().contains(c) && #[trigger] now.subrange(5 * j, 5 * j + 5) == mutations(
                    upto[j],
                    c,
                ) by {
                if j < k {
                    assert(now.subrange(5 * j, 5 * j + 5) =~= before.subrange(5 * j, 5 * j + 5));
                    assert(upto[j] == string_views(words@).take(k as int)[j]);
                } else {
                    assert(now.subrange(5 * j, 5 * j + 5) =~= added);
                    assert(specials().contains(special));
                }
            }
        }
        k += 1;
    }
    proof {
        assert(string_views(words@).take(k as int) =~= string_views(words@));
    }
    out
}

/// The words of a run: the word list, then its mutations where they are
/// asked for, then the payloads.
pub fn assemble_words(wordlist: Vec<String>, mutate: bool, payloads: Vec<String>) -> (words: Vec<
    String,
>)
    ensures
        exists|extra: Seq<Seq<char>>|
            {
                &&& #[trigger] string_views(words@) == string_views(wordlist@) + extra
                    + string_views(payloads@)
                &&& if mutate {
                    is_mutation_list(string_views(wordlist@), extra)
                } else {
                    extra.len() == 0
                }
            },
{
    let mut words = wordlist;
    let mut payloads = payloads;
    let ghost first = string_views(words@);
    let ghost last = string_views(payloads@);
    let ghost mut extra: Seq<Seq<char>> = Seq::empty();
    if mutate {
        let mut mutated = mutate_wordlist(&words);
        proof {
            extra = string_views(mutated@);
        }
        words.append(&mut mutated);
    }
    words.append(&mut payloads);
    proof {
        assert(string_views(words@) =~= first + extra + last);
    }
    words
}

/// The endpoints of an API description. No description is read yet: the two
/// endpoints that stand for one are returned for every URL.
pub fn parse_openapi(url: &str) -> (endpoints: Vec<String>)
    ensures
        string_views(endpoints@) == openapi_endpoints(),
{
    let mut endpoints: Vec<String> = Vec::new();
    endpoints.push("https://example.com/api/v1/users".to_owned());
    endpoints.push("https://example.com/api/v1/login".to_owned());
    proof {
        assert(string_views(endpoints@) =~= openapi_endpoints());
    }
    endpoints
}

/// The target `base/word`.
pub fn target_for(base: &Vec<char>, word: &str) -> (target: String)
    ensures
        target@ == base@.push('/') + word@,
{
    let mut cs = base.clone();
    cs.push('/');
    let w = chars_of(word);
    let mut k: usize = 0;
    while k < w.len()
        invariant
            k <= w.len(),
            cs@ == base@.push('/') + w@.take(k as int),
        decreases w.len() - k,
    {
        cs.push(w[k]);
        proof {
            assert(cs@ =~= base@.push('/') + w@.take(k + 1));
        }
        k += 1;
    }
    proof {
        assert(w@.take(w@.len() as int) =~= w@);
    }
    string_from_chars(&cs)
}

/// The ordered list of targets of a run: `url/word` for each word that is not
/// blank, `url` taken without trailing slashes, then the discovered URLs.
pub fn build_targets(url: &str, words: &Vec<String>, discovered: Vec<String>) -> (targets: Vec<
    String,
>)
    ensures
        string_views(targets@) == targets_of(url@, string_views(words@), string_views(discovered@)),
{
    let base = trim_end_char_of(&chars_of(url), '/');
    let mut targets: Vec<String> = Vec::new();
    let mut k: usize = 0;
    proof {
        assert(string_views(words@).take(0) =~= Seq::<Seq<char>>::empty());
        assert(string_views(targets@) =~= Seq::<Seq<char>>::empty());
    }
    while k < words.len()
        invariant
            k <= words.len(),
            base@ == trim_end_char(url@, '/'),
            string_views(targets@) == word_targets(base@, string_views(words@).take(k as int)),
        decreases words.len() - k,
    {
        proof {
            let next = string_views(words@).take(k + 1);
            assert(next.drop_last() =~= string_views(words@).take(k as int));
            assert(next.last() == words@[k as int]@);
        }
        if !is_blank_str(words[k].as_str()) {
            let ghost before = string_views(targets@);
            let target = target_for(&base, words[k].as_str());
            targets.push(target);
            proof {
                assert(string_views(targets@) =~= before.push(target@));
            }
        }
        k += 1;
    }
    let mut discovered = discovered;
    let ghost head = string_views(targets@);
    let ghost tail = string_views(discovered@);
    targets.append(&mut discovered);
    proof {
        assert(string_views(words@).take(k as int) =~= string_views(words@));
        assert(string_views(targets@) =~= head + tail);
    }
    targets
}

/// Adds to the discovered URLs each of `more` that is not among them yet, so
/// that no URL is requested twice for having been discovered twice.
pub fn add_discovered(list: Vec<String>, more: Vec<String>) -> (all: Vec<String>)
    ensures
        string_views(all@) == with_new(string_views(list@), string_views(more@)),
{
    let mut all = list;
    let mut more = more;
    let ghost first = string_views(all@);
    let ghost rest = string_views(more@);
    let mut k: usize = 0;
    proof {
        assert(rest.take(0) =~= Seq::<Seq<char>>::empty());
    }
    while k < more.len()
        invariant
            k <= more.len(),
            more@.len() == rest.len(),
            forall|i: int| k <= i < more@.len() ==> (#[trigger] more@[i])@ == rest[i],
            string_views(all@) == with_new(first, rest.take(k as int)),
        decreases more.len() - k,
    {
        proof {
            assert(rest.take(k + 1).drop_last() =~= rest.take(k as int));
            assert(rest.take(k + 1).last() == rest[k as int]);
        }
        let mut seen = false;
        let mut j: usize = 0;
        while j < all.len()
            invariant
                j <= all.len(),
                k < more.len(),
                seen == exists|i: int| 0 <= i < j && string_views(all@)[i] == more@[k as int]@,
            decreases all.len() - j,
        {
            if all[j] == more[k] {
                assert(string_views(all@)[j as int] == more@[k as int]@);
                seen = true;
            }
            j += 1;
        }
        if !seen {
            let ghost held = string_views(all@);
            let mut url = String::new();
            std::mem::swap(&mut more[k], &mut url);
            all.push(url);
            proof {
                assert(string_views(all@) =~= held.push(rest[k as int]));
            }
        }
        k += 1;
    }
    proof {
        assert(rest.take(k as int) =~= rest);
    }
    all
}

/// The words of a word list file: its lines, in order, each without its
/// line ending.
pub fn wordlist_lines(text: &str) -> (lines: Vec<String>)
    ensures
        string_views(lines@) == lines_of(text@),
{
    let cs = chars_of(text);
    let pieces = split_chars(&cs, '\n');
    proof {
        lemma_fields_nonempty(text@, '\n');
    }
    let ghost all = fields(text@, '\n');
    let ghost ended = all.drop_last().map_values(|line: Seq<char>| without_return(line));
    let mut lines: Vec<String> = Vec::new();
    let last: usize = pieces.len() - 1;
    let mut k: usize = 0;
    proof {
        assert(string_views(lines@) =~= ended.take(0));
    }
    while k < last
        invariant
            k <= last,
            last == pieces.len() - 1,
            views(pieces@) == all,
            ended == all.drop_last().map_values(|line: Seq<char>| without_return(line)),
            string_views(lines@) == ended.take(k as int),
        decreases last - k,
    {
        let piece = &pieces[k];
        let ghost held = string_views(lines@);
        proof {
            assert(all[k as int] == piece@);
            assert(ended[k as int] == without_return(piece@));
        }
        let line = if piece.len() > 0 && piece[piece.len() - 1] == '\r' {
            let mut shorter = piece.clone();
            shorter.pop();
            proof {
                assert(shorter@ =~= piece@.drop_last());
            }
            string_from_chars(&shorter)
        } else {
            string_from_chars(piece)
        };
        lines.push(line);
        proof {
            assert(string_views(lines@) =~= held.push(ended[k as int]));
            assert(string_views(lines@) =~= ended.take(k + 1));
        }
        k += 1;
    }
    proof {
        assert(ended.take(k as int) =~= ended);
        assert(all.last() == pieces@[last as int]@);
    }
    if pieces[last].len() > 0 {
        let ghost held = string_views(lines@);
        lines.push(string_from_chars(&pieces[last]));
        proof {
            assert(string_views(lines@) =~= held.push(all.last()));
        }
    }
    lines
}

} // verus!
