//! Which proxy addresses are accepted: HTTP and SOCKS ones.
use vstd::prelude::*;

use crate::text::{chars_of, is_white_space, is_white_space_char};

verus! {

broadcast use vstd::string::group_string_axioms;

/// What follows `prefix` in `s`, when `s` starts with it.
pub open spec fn after_prefix(s: Seq<char>, prefix: Seq<char>) -> Option<Seq<char>> {
    if prefix.len() <= s.len() && s.take(prefix.len() as int) == prefix {
        Some(s.skip(prefix.len() as int))
    } else {
        None
    }
}

/// The host part of a proxy address: what follows its scheme, one of
/// `http://`, `https://`, `socks4://` and `socks5://`.
pub open spec fn proxy_host(s: Seq<char>) -> Option<Seq<char>> {
    if after_prefix(s, "http://"@) is Some {
        after_prefix(s, "http://"@)
    } else if after_prefix(s, "https://"@) is Some {
        after_prefix(s, "https://"@)
    } else if after_prefix(s, "socks4://"@) is Some {
        after_prefix(s, "socks4://"@)
    } else {
        after_prefix(s, "socks5://"@)
    }
}

/// Whether `s` is an HTTP or SOCKS proxy address: a scheme the proxy
/// settings accept, then a host (with an optional port) that is not empty and
/// holds no white space.
pub open spec fn valid_proxy_url(s: Seq<char>) -> bool {
    match proxy_host(s) {
        Some(host) => host.len() > 0 && forall|i: int| 0 <= i < host.len() ==> !is_white_space(#[trigger] host[i]),
        None => false,
    }
}

/// The length of `prefix` when `v` starts with it.
fn prefix_len(v: &Vec<char>, prefix: &str) -> (r: Option<usize>)
    ensures
        match r {
            Some(n) => after_prefix(v@, prefix@) == Some(v@.skip(n as int)) && n == prefix@.len(),
            None => after_prefix(v@, prefix@) is None,
        },
{
    let p = chars_of(prefix);
    if p.len() > v.len() {
        return None;
    }
    let mut i: usize = 0;
    while i < p.len()
        invariant
            p@ == prefix@,
            p.len() <= v.len(),
            i <= p.len(),
            forall|k: int| 0 <= k < i ==> v@[k] == p@[k],
        decreases p.len() - i,
    {
        if v[i] != p[i] {
            assert(v@.take(p.len() as int)[i as int] != p@[i as int]);
            return None;
        }
        i += 1;
    }
    assert(v@.take(p.len() as int) =~= p@);
    Some(p.len())
}

/// Whether `url` is an HTTP or SOCKS proxy address.
pub fn is_valid_proxy_url(url: &str) -> (r: bool)
    ensures
        r == valid_proxy_url(url@),
{
    let v = chars_of(url);
    let start = match prefix_len(&v, "http://") {
        Some(n) => n,
        None => match prefix_len(&v, "https://") {
            Some(n) => n,
            None => match prefix_len(&v, "socks4://") {
                Some(n) => n,
                None => match prefix_len(&v, "socks5://") {
                    Some(n) => n,
                    None => {
                        return false;
                    },
                },
            },
        },
    };
    let ghost host = v@.skip(start as int);
    assert(proxy_host(url@) == Some(host));
    if start >= v.len() {
        return false;
    }
    let mut i = start;
    while i < v.len()
        invariant
            start <= i <= v.len(),
            host == v@.skip(start as int),
            proxy_host(url@) == Some(host),
            forall|k: int| 0 <= k < i - start ==> !is_white_space(#[trigger] host[k]),
        decreases v.len() - i,
    {
        if is_white_space_char(v[i]) {
            assert(host.len() == v.len() - start);
            assert(host[i - start] == v@[i as int]);
            assert(is_white_space(host[i - start]));
            return false;
        }
        assert(host[i - start] == v@[i as int]);
        i += 1;
    }
    true
}

} // verus!
