//! The headers of a request: custom headers, the joined `Cookie` header and
//! the bearer authorization, in the order in which they are sent.

use crate::text::{push_chars, string_from_chars};
use vstd::prelude::*;

verus! {

/// The character sequences of a list of name and value pairs.
pub open spec fn pair_views(pairs: Seq<(String, String)>) -> Seq<(Seq<char>, Seq<char>)> {
    pairs.map_values(|p: (String, String)| (p.0@, p.1@))
}

/// The value of the `Cookie` header: each cookie as `name=value`, joined by
/// `; ` in the order given.
pub open spec fn cookie_value(cookies: Seq<(Seq<char>, Seq<char>)>) -> Seq<char>
    decreases cookies.len(),
{
    if cookies.len() == 0 {
        Seq::empty()
    } else if cookies.len() == 1 {
        cookies[0].0.push('=') + cookies[0].1
    } else {
        cookie_value(cookies.drop_last()) + seq![';', ' '] + cookies.last().0.push('=')
            + cookies.last().1
    }
}

/// The `Cookie` header of a request, where there are cookies.
pub open spec fn cookie_headers(cookies: Seq<(Seq<char>, Seq<char>)>) -> Seq<
    (Seq<char>, Seq<char>),
> {
    if cookies.len() == 0 {
        Seq::empty()
    } else {
        seq![("Cookie"@, cookie_value(cookies))]
    }
}

/// The bearer authorization header of a request, where a token is set.
pub open spec fn bearer_headers(token: Option<Seq<char>>) -> Seq<(Seq<char>, Seq<char>)> {
    match token {
        Some(t) => seq![("Authorization"@, "Bearer "@ + t)],
        None => Seq::empty(),
    }
}

/// The headers of a probe, in the order sent: every custom header, also
/// those that repeat a name; then the `Cookie` header; last the bearer
/// authorization, so that no custom header can stand behind it.
pub open spec fn probe_headers(
    headers: Seq<(Seq<char>, Seq<char>)>,
    cookies: Seq<(Seq<char>, Seq<char>)>,
    token: Option<Seq<char>>,
) -> Seq<(Seq<char>, Seq<char>)> {
    headers + cookie_headers(cookies) + bearer_headers(token)
}

/// The headers of a crawler's request, in the order sent: the `Cookie`
/// header, then every custom header.
pub open spec fn page_headers(
    cookies: Seq<(Seq<char>, Seq<char>)>,
    headers: Seq<(Seq<char>, Seq<char>)>,
) -> Seq<(Seq<char>, Seq<char>)> {
    cookie_headers(cookies) + headers
}

/// The value of the `Cookie` header for `cookies`; `None` where there are
/// none.
pub fn cookie_header(cookies: &Vec<(String, String)>) -> (value: Option<String>)
    ensures
        (value is Some) == (cookies@.len() > 0),
        value matches Some(v) ==> v@ == cookie_value(pair_views(cookies@)),
{
    if cookies.len() == 0 {
        return None;
    }
    let mut cs: Vec<char> = Vec::new();
    let mut k: usize = 0;
    proof {
        assert(pair_views(cookies@).take(0) =~= Seq::<(Seq<char>, Seq<char>)>::empty());
    }
    while k < cookies.len()
        invariant
            k <= cookies.len(),
            cs@ == cookie_value(pair_views(cookies@).take(k as int)),
        decreases cookies.len() - k,
    {
        proof {
            let next = pair_views(cookies@).take(k + 1);
            assert(next.drop_last() =~= pair_views(cookies@).take(k as int));
            assert(next.last() == (cookies@[k as int].0@, cookies@[k as int].1@));
            if k == 0 {
                assert(next[0] == next.last());
            }
        }
        let ghost before = cs@;
        if k > 0 {
            cs.push(';');
            cs.push(' ');
        }
        let ghost joined = cs@;
        push_chars(&mut cs, cookies[k].0.as_str());
        cs.push('=');
        push_chars(&mut cs, cookies[k].1.as_str());
        proof {
            let name = cookies@[k as int].0@;
            let value = cookies@[k as int].1@;
            if k > 0 {
                assert(joined =~= before + seq![';', ' ']);
                assert(cs@ =~= before + seq![';', ' '] + name.push('=') + value);
            } else {
                assert(cs@ =~= name.push('=') + value);
            }
        }
        k += 1;
    }
    proof {
        assert(pair_views(cookies@).take(k as int) =~= pair_views(cookies@));
    }
    Some(string_from_chars(&cs))
}

/// Appends a copy of every pair of `src` to `dst`.
fn push_pairs(dst: &mut Vec<(String, String)>, src: &Vec<(String, String)>)
    ensures
        pair_views(final(dst)@) == pair_views(old(dst)@) + pair_views(src@),
{
    let ghost before = pair_views(dst@);
    let mut k: usize = 0;
    proof {
        assert(pair_views(dst@) =~= before + pair_views(src@).take(0));
    }
    while k < src.len()
        invariant
            k <= src.len(),
            pair_views(dst@) == before + pair_views(src@).take(k as int),
        decreases src.len() - k,
    {
        let ghost held = pair_views(dst@);
        let pair = (src[k].0.clone(), src[k].1.clone());
        dst.push(pair);
        proof {
            assert(pair_views(dst@) =~= held.push((src@[k as int].0@, src@[k as int].1@)));
            assert(pair_views(dst@) =~= before + pair_views(src@).take(k + 1));
        }
        k += 1;
    }
    proof {
        assert(pair_views(src@).take(k as int) =~= pair_views(src@));
    }
}

/// The headers of the request for one target, in the order in which they
/// are to be set.
pub fn request_headers(
    headers: &Vec<(String, String)>,
    cookies: &Vec<(String, String)>,
    auth_token: Option<&str>,
) -> (out: Vec<(String, String)>)
    ensures
        pair_views(out@) == probe_headers(
            pair_views(headers@),
            pair_views(cookies@),
            match auth_token {
                Some(t) => Some(t@),
                None => None,
            },
        ),
{
    let mut out: Vec<(String, String)> = Vec::new();
    proof {
        assert(pair_views(out@) =~= Seq::<(Seq<char>, Seq<char>)>::empty());
    }
    push_pairs(&mut out, headers);
    let ghost first = pair_views(out@);
    proof {
        assert(first =~= pair_views(headers@));
    }
    match cookie_header(cookies) {
        Some(value) => {
            out.push(("Cookie".to_owned(), value));
            proof {
                assert(pair_views(out@) =~= first + cookie_headers(pair_views(cookies@)));
            }
        },
        None => {
            proof {
                assert(pair_views(out@) =~= first + cookie_headers(pair_views(cookies@)));
            }
        },
    }
    let ghost second = pair_views(out@);
    match auth_token {
        Some(token) => {
            let mut value: Vec<char> = Vec::new();
            push_chars(&mut value, "Bearer ");
            push_chars(&mut value, token);
            proof {
                assert(value@ =~= "Bearer "@ + token@);
            }
            out.push(("Authorization".to_owned(), string_from_chars(&value)));
            proof {
                assert(pair_views(out@) =~= second + bearer_headers(Some(token@)));
            }
        },
        None => {
            proof {
                assert(pair_views(out@) =~= second + bearer_headers(None));
            }
        },
    }
    out
}

/// The headers of the crawler's request for a page, in the order in which
/// they are to be set.
pub fn crawl_headers(cookies: &Vec<(String, String)>, headers: &Vec<(String, String)>) -> (out:
    Vec<(String, String)>)
    ensures
        pair_views(out@) == page_headers(pair_views(cookies@), pair_views(headers@)),
{
    let mut out: Vec<(String, String)> = Vec::new();
    match cookie_header(cookies) {
        Some(value) => {
            out.push(("Cookie".to_owned(), value));
        },
        None => {},
    }
    proof {
        assert(pair_views(out@) =~= cookie_headers(pair_views(cookies@)));
    }
    push_pairs(&mut out, headers);
    out
}

} // verus!
