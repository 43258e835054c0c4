//! Settings of a run: `key:value` options, the matcher list of status codes,
//! and how a configuration file and command-line flags combine.

use crate::text::{
    chars_of, fields, first_index, index_from, slice_of, split_chars, string_from_chars,
    trim_chars, trimmed, views,
};
use vstd::prelude::*;

verus! {

/// The threads used where none are configured.
pub const DEFAULT_THREADS: usize = 40;

/// The request timeout in seconds where none is configured.
pub const DEFAULT_TIMEOUT_SECS: u64 = 10;

/// The status codes that are retained where no matcher is configured.
pub open spec fn default_matcher() -> Seq<char> {
    "200,301,302,401,403,405,500"@
}

/// Splits `key:value` at its first colon and trims both sides. Without a
/// colon the whole string is the key and the value is empty.
pub fn split_kv(s: &str) -> (kv: (String, String))
    ensures
        kv.0@ == trimmed(s@.take(first_index(s@, ':'))),
        first_index(s@, ':') < s@.len() ==> kv.1@ == trimmed(s@.skip(first_index(s@, ':') + 1)),
        first_index(s@, ':') >= s@.len() ==> kv.1@ == Seq::<char>::empty(),
{
    let cs = chars_of(s);
    proof {
        assert(cs@.skip(0) =~= cs@);
    }
    let i = index_from(&cs, 0, ':');
    let head = slice_of(&cs, 0, i);
    let key = trim_chars(&head);
    proof {
        assert(cs@.subrange(0, i as int) =~= cs@.take(i as int));
    }
    if i < cs.len() {
        let tail = slice_of(&cs, i + 1, cs.len());
        let value = trim_chars(&tail);
        proof {
            assert(cs@.subrange(i + 1, cs@.len() as int) =~= cs@.skip(i + 1));
        }
        (string_from_chars(&key), string_from_chars(&value))
    } else {
        (string_from_chars(&key), String::new())
    }
}

/// An ASCII decimal digit.
pub open spec fn is_digit(c: char) -> bool {
    0x30 <= c as u32 <= 0x39
}

/// Every character is a decimal digit.
pub open spec fn all_digits(s: Seq<char>) -> bool {
    forall|i: int| 0 <= i < s.len() ==> is_digit(#[trigger] s[i])
}

/// The number that a string of decimal digits writes.
pub open spec fn decimal_value(s: Seq<char>) -> int
    decreases s.len(),
{
    if s.len() == 0 {
        0
    } else {
        decimal_value(s.drop_last()) * 10 + (s.last() as u32 - 0x30)
    }
}

/// What `str::parse::<u16>` accepts: an optional `+`, then one or more
/// decimal digits that write a number up to 65535.
pub open spec fn parsed_u16(s: Seq<char>) -> Option<u16> {
    let digits = if s.len() > 0 && s[0] == '+' {
        s.skip(1)
    } else {
        s
    };
    if digits.len() > 0 && all_digits(digits) && decimal_value(digits) <= u16::MAX {
        Some(decimal_value(digits) as u16)
    } else {
        None
    }
}

/// A prefix of a digit string writes no larger a number than the whole.
pub proof fn lemma_decimal_monotone(s: Seq<char>, k: int)
    requires
        0 <= k <= s.len(),
        all_digits(s),
    ensures
        0 <= decimal_value(s.take(k)) <= decimal_value(s),
    decreases s.len() - k,
{
    if k == s.len() {
        assert(s.take(k) =~= s);
        lemma_decimal_nonnegative(s);
    } else {
        assert(all_digits(s.drop_last())) by {
            assert forall|i: int| 0 <= i < s.drop_last().len() implies is_digit(
                #[trigger] s.drop_last()[i],
            ) by {
                assert(s.drop_last()[i] == s[i]);
            }
        }
        lemma_decimal_monotone(s.drop_last(), k);
        assert(s.drop_last().take(k) =~= s.take(k));
        assert(is_digit(s[s.len() - 1]));
    }
}

/// A digit string writes a number that is not negative.
pub proof fn lemma_decimal_nonnegative(s: Seq<char>)
    requires
        all_digits(s),
    ensures
        0 <= decimal_value(s),
    decreases s.len(),
{
    if s.len() > 0 {
        assert forall|i: int| 0 <= i < s.drop_last().len() implies is_digit(
            #[trigger] s.drop_last()[i],
        ) by {
            assert(s.drop_last()[i] == s[i]);
        }
        lemma_decimal_nonnegative(s.drop_last());
        assert(is_digit(s[s.len() - 1]));
    }
}

/// The status code that `cs` writes, as `str::parse::<u16>` reads it.
pub fn parse_u16(cs: &Vec<char>) -> (r: Option<u16>)
    ensures
        r == parsed_u16(cs@),
{
    let start: usize = if cs.len() > 0 && cs[0] == '+' {
        1
    } else {
        0
    };
    let ghost digits = cs@.skip(start as int);
    if start == cs.len() {
        return None;
    }
    let mut acc: u32 = 0;
    let mut k: usize = start;
    proof {
        assert(digits.take(0) =~= Seq::<char>::empty());
        assert(cs@.skip(0) =~= cs@);
    }
    while k < cs.len()
        invariant
            start <= k <= cs.len(),
            start < cs.len(),
            digits == cs@.skip(start as int),
            digits == if cs@.len() > 0 && cs@[0] == '+' {
                cs@.skip(1)
            } else {
                cs@
            },
            all_digits(digits.take(k - start)),
            acc == decimal_value(digits.take(k - start)),
            acc <= u16::MAX,
        decreases cs.len() - k,
    {
        let c = cs[k];
        let n: u32 = c as u32;
        let ghost next = digits.take(k - start + 1);
        proof {
            assert(next.drop_last() =~= digits.take(k - start));
            assert(next.last() == c);
        }
        if n < 0x30 || n > 0x39 {
            proof {
                assert(!is_digit(digits[k - start]));
            }
            return None;
        }
        proof {
            assert forall|i: int| 0 <= i < next.len() implies is_digit(#[trigger] next[i]) by {
                if i < k - start {
                    assert(next[i] == digits.take(k - start)[i]);
                }
            }
        }
        let value: u32 = acc * 10 + (n - 0x30);
        if value > 65535 {
            proof {
                if all_digits(digits) {
                    lemma_decimal_monotone(digits, k - start + 1);
                }
            }
            return None;
        }
        acc = value;
        k += 1;
    }
    proof {
        assert(digits.take(k - start) =~= digits);
    }
    Some(acc as u16)
}

/// The codes that a list of fields writes, skipping each field that is not a
/// status code.
pub open spec fn codes_of(pieces: Seq<Seq<char>>) -> Seq<u16>
    decreases pieces.len(),
{
    if pieces.len() == 0 {
        Seq::empty()
    } else {
        match parsed_u16(pieces.last()) {
            Some(code) => codes_of(pieces.drop_last()).push(code),
            None => codes_of(pieces.drop_last()),
        }
    }
}

/// The matcher set that a comma-separated list writes.
pub open spec fn matcher_codes(s: Seq<char>) -> Seq<u16> {
    codes_of(fields(s, ','))
}

/// Reads a comma-separated list of status codes. A field that is not a
/// number up to 65535 is skipped; no field is trimmed.
pub fn parse_matcher(s: &str) -> (codes: Vec<u16>)
    ensures
        codes@ == matcher_codes(s@),
{
    let cs = chars_of(s);
    let pieces = split_chars(&cs, ',');
    let mut codes: Vec<u16> = Vec::new();
    let mut k: usize = 0;
    proof {
        assert(views(pieces@).take(0) =~= Seq::<Seq<char>>::empty());
    }
    while k < pieces.len()
        invariant
            k <= pieces.len(),
            codes@ == codes_of(views(pieces@).take(k as int)),
        decreases pieces.len() - k,
    {
        proof {
            let next = views(pieces@).take(k + 1);
            assert(next.drop_last() =~= views(pieces@).take(k as int));
            assert(next.last() == pieces@[k as int]@);
        }
        match parse_u16(&pieces[k]) {
            Some(code) => {
                codes.push(code);
            },
            None => {},
        }
        k += 1;
    }
    proof {
        assert(views(pieces@).take(k as int) =~= views(pieces@));
    }
    codes
}

/// Whether `code` is one of `codes`.
pub fn has_code(codes: &Vec<u16>, code: u16) -> (r: bool)
    ensures
        r == codes@.contains(code),
{
    let mut k: usize = 0;
    while k < codes.len()
        invariant
            k <= codes.len(),
            forall|i: int| 0 <= i < k ==> codes@[i] != code,
        decreases codes.len() - k,
    {
        if codes[k] == code {
            return true;
        }
        k += 1;
    }
    false
}

/// The options of a run as a configuration file or the command line gives
/// them: each one may be left out.
#[derive(Clone, Debug, Default, PartialEq, Eq)]
pub struct Config {
    pub url: Option<String>,
    pub wordlist: Option<String>,
    pub threads: Option<usize>,
    pub timeout: Option<u64>,
    pub matcher: Option<String>,
    pub headers: Option<Vec<(String, String)>>,
    pub cookies: Option<Vec<(String, String)>>,
    pub auth_token: Option<String>,
    pub proxy: Option<String>,
    pub rate_limit: Option<u64>,
    pub export: Option<String>,
    pub crawl: Option<bool>,
    pub mutate: Option<bool>,
    pub payloads: Option<String>,
    pub openapi: Option<String>,
    pub analyze: Option<String>,
}

/// The settings of a run, every default filled in.
#[derive(Clone, Debug, PartialEq, Eq)]
pub struct Settings {
    pub url: String,
    pub wordlist: String,
    /// The most requests that may be in flight at once.
    pub threads: usize,
    /// The timeout of one request, in seconds.
    pub timeout: u64,
    /// The status codes of the responses that are retained.
    pub matcher: Vec<u16>,
    pub headers: Vec<(String, String)>,
    pub cookies: Vec<(String, String)>,
    pub auth_token: Option<String>,
    pub proxy: Option<String>,
    /// The wait before each request, in milliseconds.
    pub rate_limit: u64,
    pub export: Option<String>,
    pub crawl: bool,
    pub mutate: bool,
    pub payloads: Option<String>,
    pub openapi: Option<String>,
    pub analyze: Option<String>,
}

/// `first` where it is set, else `second`.
pub open spec fn preferred<T>(first: Option<T>, second: Option<T>) -> Option<T> {
    if first is Some {
        first
    } else {
        second
    }
}

/// `value` where it is set, else `default`.
pub open spec fn or_default<T>(value: Option<T>, default: T) -> T {
    match value {
        Some(v) => v,
        None => default,
    }
}

/// `first` where it is set, else `second`.
pub fn prefer<T>(first: Option<T>, second: Option<T>) -> (r: Option<T>)
    ensures
        r == preferred(first, second),
{
    match first {
        Some(v) => Some(v),
        None => second,
    }
}

/// The options of `file` with each option that `flags` sets in its place.
pub open spec fn overridden(file: Config, flags: Config) -> Config {
    Config {
        url: preferred(flags.url, file.url),
        wordlist: preferred(flags.wordlist, file.wordlist),
        threads: preferred(flags.threads, file.threads),
        timeout: preferred(flags.timeout, file.timeout),
        matcher: preferred(flags.matcher, file.matcher),
        headers: preferred(flags.headers, file.headers),
        cookies: preferred(flags.cookies, file.cookies),
        auth_token: preferred(flags.auth_token, file.auth_token),
        proxy: preferred(flags.proxy, file.proxy),
        rate_limit: preferred(flags.rate_limit, file.rate_limit),
        export: preferred(flags.export, file.export),
        crawl: preferred(flags.crawl, file.crawl),
        mutate: preferred(flags.mutate, file.mutate),
        payloads: preferred(flags.payloads, file.payloads),
        openapi: preferred(flags.openapi, file.openapi),
        analyze: preferred(flags.analyze, file.analyze),
    }
}

/// Combines a configuration file with the command line: a flag that is
/// given overrides the file's option, and the file's option stands where
/// the flag is left out.
pub fn apply_flags(file: Config, flags: Config) -> (merged: Config)
    ensures
        merged == overridden(file, flags),
{
    Config {
        url: prefer(flags.url, file.url),
        wordlist: prefer(flags.wordlist, file.wordlist),
        threads: prefer(flags.threads, file.threads),
        timeout: prefer(flags.timeout, file.timeout),
        matcher: prefer(flags.matcher, file.matcher),
        headers: prefer(flags.headers, file.headers),
        cookies: prefer(flags.cookies, file.cookies),
        auth_token: prefer(flags.auth_token, file.auth_token),
        proxy: prefer(flags.proxy, file.proxy),
        rate_limit: prefer(flags.rate_limit, file.rate_limit),
        export: prefer(flags.export, file.export),
        crawl: prefer(flags.crawl, file.crawl),
        mutate: prefer(flags.mutate, file.mutate),
        payloads: prefer(flags.payloads, file.payloads),
        openapi: prefer(flags.openapi, file.openapi),
        analyze: prefer(flags.analyze, file.analyze),
    }
}

/// Whether the options ask for any work: a word list to probe, a crawl, or
/// an exported file to analyze. A run is refused where none is asked for
/// and no configuration file is named.
pub fn selects_work(flags: &Config) -> (r: bool)
    ensures
        r == (flags.wordlist is Some || flags.crawl == Some(true) || flags.analyze is Some),
{
    let crawl = match flags.crawl {
        Some(c) => c,
        None => false,
    };
    flags.wordlist.is_some() || crawl || flags.analyze.is_some()
}

/// Fills in the defaults: no URL and no word list, 40 threads, a timeout of
/// 10 seconds, the default matcher, no headers and cookies, no wait, and
/// neither crawl nor mutations.
pub fn resolve(config: Config) -> (s: Settings)
    ensures
        s.url@ == match config.url {
            Some(u) => u@,
            None => Seq::<char>::empty(),
        },
        s.wordlist@ == match config.wordlist {
            Some(w) => w@,
            None => Seq::<char>::empty(),
        },
        s.threads == or_default(config.threads, DEFAULT_THREADS),
        s.timeout == or_default(config.timeout, DEFAULT_TIMEOUT_SECS),
        s.matcher@ == matcher_codes(
            match config.matcher {
                Some(m) => m@,
                None => default_matcher(),
            },
        ),
        s.headers@ == match config.headers {
            Some(h) => h@,
            None => Seq::<(String, String)>::empty(),
        },
        s.cookies@ == match config.cookies {
            Some(c) => c@,
            None => Seq::<(String, String)>::empty(),
        },
        s.auth_token == config.auth_token,
        s.proxy == config.proxy,
        s.rate_limit == or_default(config.rate_limit, 0),
        s.export == config.export,
        s.crawl == or_default(config.crawl, false),
        s.mutate == or_default(config.mutate, false),
        s.payloads == config.payloads,
        s.openapi == config.openapi,
        s.analyze == config.analyze,
{
    let matcher = match &config.matcher {
        Some(m) => parse_matcher(m.as_str()),
        None => parse_matcher("200,301,302,401,403,405,500"),
    };
    Settings {
        url: match config.url {
            Some(u) => u,
            None => String::new(),
        },
        wordlist: match config.wordlist {
            Some(w) => w,
            None => String::new(),
        },
        threads: match config.threads {
            Some(t) => t,
            None => DEFAULT_THREADS,
        },
        timeout: match config.timeout {
            Some(t) => t,
            None => DEFAULT_TIMEOUT_SECS,
        },
        matcher,
        headers: match config.headers {
            Some(h) => h,
            None => Vec::new(),
        },
        cookies: match config.cookies {
            Some(c) => c,
            None => Vec::new(),
        },
        auth_token: config.auth_token,
        proxy: config.proxy,
        rate_limit: match config.rate_limit {
            Some(r) => r,
            None => 0,
        },
        export: config.export,
        crawl: match config.crawl {
            Some(c) => c,
            None => false,
        },
        mutate: match config.mutate {
            Some(m) => m,
            None => false,
        },
        payloads: config.payloads,
        openapi: config.openapi,
        analyze: config.analyze,
    }
}

} // verus!
