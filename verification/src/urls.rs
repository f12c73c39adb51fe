//! URL acceptance for the launcher: a typed query counts as openable
//! when it is an absolute web URL, a `www.` name, or a bare domain.

use vstd::prelude::*;
use vstd::string::StringExecFns;
use crate::text::{is_word_char, word_char, chars_of, str_eq, starts_with_seq, matches_at};
use crate::outside::{url_scheme, url_scheme_of};

verus! {

/// A domain-shaped name: non-empty dot-separated parts, each made of
/// ASCII letters, digits and hyphens, with at least two parts.
/// Internationalized names are deliberately out of this model; typed
/// as absolute URLs they still pass through the parser's scheme check.
pub open spec fn valid_domain(s: Seq<char>) -> bool {
    &&& s.len() > 0
    &&& exists|i: int| 0 <= i < s.len() && s[i] == '.'
    &&& forall|i: int| 0 <= i < s.len() ==> is_word_char(#[trigger] s[i]) || s[i] == '-' || s[i]
        == '.'
    &&& s[0] != '.'
    &&& s[s.len() - 1] != '.'
    &&& forall|i: int| 0 < i < s.len() ==> !(#[trigger] s[i] == '.' && s[i - 1] == '.')
}

/// Decides `valid_domain` in one pass.
pub fn is_valid_domain(domain: &str) -> (r: bool)
    ensures
        r == valid_domain(domain@),
{
    let d = chars_of(domain);
    let n = d.len();
    if n == 0 {
        return false;
    }
    if d[0] == '.' || d[n - 1] == '.' {
        return false;
    }
    let mut saw_dot = false;
    let mut i: usize = 0;
    while i < n
        invariant
            i <= n,
            n == d@.len(),
            d@ == domain@,
            n > 0,
            d@[0] != '.',
            saw_dot == exists|k: int| 0 <= k < i && d@[k] == '.',
            forall|k: int|
                0 <= k < i ==> is_word_char(#[trigger] d@[k]) || d@[k] == '-' || d@[k] == '.',
            forall|k: int| 0 < k < i ==> !(#[trigger] d@[k] == '.' && d@[k - 1] == '.'),
        decreases n - i,
    {
        let c = d[i];
        if !(word_char(c) || c == '-' || c == '.') {
            return false;
        }
        if c == '.' {
            if i > 0 && d[i - 1] == '.' {
                return false;
            }
            saw_dot = true;
        }
        proof {
            if saw_dot && d@[i as int] != '.' {
                let w = choose|k: int| 0 <= k < i && d@[k] == '.';
                assert(0 <= w < i + 1 && d@[w] == '.');
            }
        }
        i = i + 1;
    }
    saw_dot
}

/// Whether a typed string is openable as a web address: an absolute
/// URL with an `http` or `https` scheme, a `www.` name over a valid
/// domain, or a bare valid domain.
pub open spec fn valid_url(s: Seq<char>) -> bool {
    if url_scheme_of(s) is Some {
        url_scheme_of(s) == Some("http"@) || url_scheme_of(s) == Some("https"@)
    } else if starts_with_seq(s, "www."@) {
        valid_domain(s.skip(4))
    } else {
        valid_domain(s)
    }
}

/// Decides `valid_url`.
pub fn is_valid_url(url_str: &str) -> (r: bool)
    ensures
        r == valid_url(url_str@),
{
    match url_scheme(url_str) {
        Some(scheme) => str_eq(scheme.as_str(), "http") || str_eq(scheme.as_str(), "https"),
        None => {
            let u = chars_of(url_str);
            let www = chars_of("www.");
            proof {
                reveal_strlit("www.");
            }
            if u.len() >= 4 && matches_at(&u, &www, 0) {
                let rest = crate::matching::subvec(&u, 4, u.len());
                proof {
                    assert(u@.subrange(4, u@.len() as int) =~= u@.skip(4));
                }
                let rest_s = crate::text::string_from_chars(&rest);
                is_valid_domain(rest_s.as_str())
            } else {
                proof {
                    if u@.len() < 4 {
                        assert(!starts_with_seq(u@, "www."@));
                    }
                }
                is_valid_domain(url_str)
            }
        },
    }
}

/// A URL normalized for opening: untouched when it already names a
/// scheme, prefixed with `https://` otherwise.
pub open spec fn normalized_url(s: Seq<char>) -> Seq<char> {
    if starts_with_seq(s, "http://"@) || starts_with_seq(s, "https://"@) {
        s
    } else {
        "https://"@ + s
    }
}

/// Normalizes a URL, mirroring `normalized_url`.
pub fn normalize_url(url: &str) -> (r: String)
    ensures
        r@ == normalized_url(url@),
{
    let u = chars_of(url);
    let h1 = chars_of("http://");
    let h2 = chars_of("https://");
    proof {
        reveal_strlit("http://");
        reveal_strlit("https://");
    }
    let p1 = u.len() >= 7 && matches_at(&u, &h1, 0);
    let p2 = u.len() >= 8 && matches_at(&u, &h2, 0);
    proof {
        if u@.len() < 7 {
            assert(!starts_with_seq(u@, "http://"@));
        }
        if u@.len() < 8 {
            assert(!starts_with_seq(u@, "https://"@));
        }
    }
    if p1 || p2 {
        crate::text::chars_to_owned(url)
    } else {
        let mut out = crate::text::chars_to_owned("https://");
        out.append(url);
        out
    }
}

} // verus!
