//! Which browser origins the CORS layer admits.
use vstd::prelude::*;
use crate::text::{
    before, chars_of, ends_with, find_first, first_where, lemma_first_where_is, lemma_first_where_props, one_of,
    starts_with, str_ends_with, str_eq, str_starts_with, strip_prefix, Stop,
};

verus! {

/// The host of an `http` or `https` origin: after the scheme, before the first
/// `/` and then before the first `:`; `None` for any other scheme.
pub open spec fn spec_origin_host(origin: Seq<char>) -> Option<Seq<char>> {
    let rest = match strip_prefix(origin, "https://"@) {
        Some(r) => Some(r),
        None => strip_prefix(origin, "http://"@),
    };
    match rest {
        Some(r) => Some(before(before(r, '/'), ':')),
        None => None,
    }
}

/// An origin is admitted when its host is the base domain or one of its subdomains.
pub open spec fn spec_origin_is_allowed(origin: Seq<char>, base_domain: Seq<char>) -> bool {
    match spec_origin_host(origin) {
        Some(h) => h == base_domain || ends_with(h, seq!['.'] + base_domain),
        None => false,
    }
}

/// The text after a scheme prefix, when the origin starts with it.
fn after_prefix<'a>(origin: &'a str, prefix: &str) -> (r: Option<&'a str>)
    ensures
        match strip_prefix(origin@, prefix@) {
            Some(rest) => r matches Some(t) && t@ == rest,
            None => r is None,
        },
{
    if str_starts_with(origin, prefix) {
        let n = origin.unicode_len();
        let k = prefix.unicode_len();
        Some(origin.substring_char(k, n))
    } else {
        None
    }
}

/// Whether a browser origin may make credentialed requests to the base domain.
pub fn origin_is_allowed(origin: &str, base_domain: &str) -> (r: bool)
    ensures
        r == spec_origin_is_allowed(origin@, base_domain@),
{
    let without_scheme = match after_prefix(origin, "https://") {
        Some(r) => Some(r),
        None => after_prefix(origin, "http://"),
    };
    let rest = match without_scheme {
        Some(r) => r,
        None => {
            return false;
        },
    };
    let v = chars_of(rest);
    let n = v.len();
    let slash = ['/'];
    let colon = [':'];
    assert(slash@ =~= seq!['/']);
    assert(colon@ =~= seq![':']);
    assert(v@.subrange(0, n as int) =~= rest@);
    let a = find_first(&v, 0, n, &Stop::OneOf(&slash));
    let b = find_first(&v, 0, a, &Stop::OneOf(&colon));
    assert(v@.subrange(0, a as int) =~= before(rest@, '/'));
    let host = rest.substring_char(0, b);
    assert(host@ =~= before(before(rest@, '/'), ':'));
    let mut dotted = ".".to_owned();
    let ghost dot = dotted@;
    proof {
        reveal_strlit(".");
    }
    assert(dot =~= seq!['.']);
    dotted.append(base_domain);
    str_eq(host, base_domain) || str_ends_with(host, dotted.as_str())
}

/// For a host without `/` or `:`, the `http` and `https` origins of that host
/// are admitted alike, and exactly when the host is the base domain or ends
/// with a dot and the base domain.
pub proof fn lemma_origin_admission(host: Seq<char>, base_domain: Seq<char>)
    requires
        !host.contains('/'),
        !host.contains(':'),
    ensures
        spec_origin_is_allowed("https://"@ + host, base_domain) == (host == base_domain || ends_with(
            host,
            seq!['.'] + base_domain,
        )),
        spec_origin_is_allowed("http://"@ + host, base_domain) == (host == base_domain || ends_with(
            host,
            seq!['.'] + base_domain,
        )),
{
    reveal_strlit("https://");
    reveal_strlit("http://");
    let s = "https://"@ + host;
    let t = "http://"@ + host;
    assert(s.take(8) =~= "https://"@);
    assert(s.skip(8) =~= host);
    assert(t.take(7) =~= "http://"@);
    assert(t.skip(7) =~= host);
    assert(!(8 <= t.len() && t.take(8) == "https://"@)) by {
        if t.len() >= 8 {
            assert(t[4] == "http://"@[4]);
            assert(t.take(8)[4] == t[4]);
            assert("https://"@[4] == 's');
        }
    }
    assert forall|j: int| 0 <= j < host.len() implies !one_of(seq!['/'])(#[trigger] host[j]) by {
        assert(host.contains(host[j]));
    }
    lemma_first_where_is(host, one_of(seq!['/']), host.len() as int);
    assert(before(host, '/') =~= host);
    assert forall|j: int| 0 <= j < host.len() implies !one_of(seq![':'])(#[trigger] host[j]) by {
        assert(host.contains(host[j]));
    }
    lemma_first_where_is(host, one_of(seq![':']), host.len() as int);
    assert(before(host, ':') =~= host);
}

/// The text after a host `h` and a `:` never changes admission: for a host
/// without `/` or `:` followed by `:` and any port and path, the `http` and
/// `https` origins are admitted exactly when the host is the base domain or
/// ends with a dot and the base domain.
pub proof fn lemma_origin_port_ignored(host: Seq<char>, port_and_path: Seq<char>, base_domain: Seq<char>)
    requires
        !host.contains('/'),
        !host.contains(':'),
    ensures
        spec_origin_is_allowed("https://"@ + host + seq![':'] + port_and_path, base_domain) == (host
            == base_domain || ends_with(host, seq!['.'] + base_domain)),
        spec_origin_is_allowed("http://"@ + host + seq![':'] + port_and_path, base_domain) == (host
            == base_domain || ends_with(host, seq!['.'] + base_domain)),
{
    reveal_strlit("https://");
    reveal_strlit("http://");
    let r = host + seq![':'] + port_and_path;
    let s = "https://"@ + host + seq![':'] + port_and_path;
    let t = "http://"@ + host + seq![':'] + port_and_path;
    assert(s =~= "https://"@ + r);
    assert(t =~= "http://"@ + r);
    assert(s.take(8) =~= "https://"@);
    assert(s.skip(8) =~= r);
    assert(t.take(7) =~= "http://"@);
    assert(t.skip(7) =~= r);
    assert(!(8 <= t.len() && t.take(8) == "https://"@)) by {
        if t.len() >= 8 {
            assert(t[4] == "http://"@[4]);
            assert(t.take(8)[4] == t[4]);
            assert("https://"@[4] == 's');
        }
    }
    let slash = one_of(seq!['/']);
    let colon = one_of(seq![':']);
    assert(seq!['/'][0] == '/' && seq![':'][0] == ':');
    let n = host.len() as int;
    lemma_first_where_props(r, slash);
    let f = first_where(r, slash) as int;
    assert forall|j: int| 0 <= j <= n implies !slash(#[trigger] r[j]) by {
        if j < n {
            assert(r[j] == host[j]);
            assert(host.contains(host[j]));
        }
    }
    assert(f > n) by {
        if f <= n {
            assert(slash(r[f]));
        }
    }
    let b = before(r, '/');
    assert(b =~= r.take(f));
    assert forall|j: int| 0 <= j < n implies !colon(#[trigger] b[j]) by {
        assert(b[j] == host[j]);
        assert(host.contains(host[j]));
    }
    assert(colon(b[n]));
    lemma_first_where_is(b, colon, n);
    assert(before(b, ':') =~= host);
}

/// A path never changes admission: for a host without `/` or `:` followed by
/// `/` and any path, the `http` and `https` origins are admitted exactly when
/// the host is the base domain or ends with a dot and the base domain.
pub proof fn lemma_origin_path_ignored(host: Seq<char>, path: Seq<char>, base_domain: Seq<char>)
    requires
        !host.contains('/'),
        !host.contains(':'),
    ensures
        spec_origin_is_allowed("https://"@ + host + seq!['/'] + path, base_domain) == (host
            == base_domain || ends_with(host, seq!['.'] + base_domain)),
        spec_origin_is_allowed("http://"@ + host + seq!['/'] + path, base_domain) == (host
            == base_domain || ends_with(host, seq!['.'] + base_domain)),
{
    reveal_strlit("https://");
    reveal_strlit("http://");
    let r = host + seq!['/'] + path;
    let s = "https://"@ + host + seq!['/'] + path;
    let t = "http://"@ + host + seq!['/'] + path;
    assert(s =~= "https://"@ + r);
    assert(t =~= "http://"@ + r);
    assert(s.take(8) =~= "https://"@);
    assert(s.skip(8) =~= r);
    assert(t.take(7) =~= "http://"@);
    assert(t.skip(7) =~= r);
    assert(!(8 <= t.len() && t.take(8) == "https://"@)) by {
        if t.len() >= 8 {
            assert(t[4] == "http://"@[4]);
            assert(t.take(8)[4] == t[4]);
            assert("https://"@[4] == 's');
        }
    }
    let slash = one_of(seq!['/']);
    let colon = one_of(seq![':']);
    assert(seq!['/'][0] == '/' && seq![':'][0] == ':');
    let n = host.len() as int;
    assert forall|j: int| 0 <= j < n implies !slash(#[trigger] r[j]) by {
        assert(r[j] == host[j]);
        assert(host.contains(host[j]));
    }
    assert(slash(r[n]));
    lemma_first_where_is(r, slash, n);
    let b = before(r, '/');
    assert(b =~= host);
    assert forall|j: int| 0 <= j < n implies !colon(#[trigger] b[j]) by {
        assert(host.contains(host[j]));
    }
    lemma_first_where_is(b, colon, n);
    assert(before(b, ':') =~= host);
}

/// Only `http` and `https` origins are ever admitted.
pub proof fn lemma_origin_scheme_required(origin: Seq<char>, base_domain: Seq<char>)
    requires
        spec_origin_is_allowed(origin, base_domain),
    ensures
        starts_with(origin, "https://"@) || starts_with(origin, "http://"@),
{
}

} // verus!
