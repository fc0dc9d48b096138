//! Host names from `Host` and `Referer` headers, and the subdomain part of a host name.
use vstd::prelude::*;
use crate::text::{
    chars_within, is_ws, lemma_after_last_props, lemma_before_any_props, lemma_subrange_within,
    lemma_first_match_is, lemma_first_where_is, lemma_first_where_props, lemma_last_where_props,
    lemma_split_on_pieces, lemma_where_congruent, not_ws, first_where, lemma_join_append, lemma_last_where_is,
    lemma_trim_props, lemma_within_trans, one_of,
    after_last, before, before_any, chars_of, find_first, find_last_end, find_pattern, first_match,
    join, join_strs, last_where, lemma_first_match_props, other_than, push_char, split_on, split_str,
    str_eq, trim, trim_str, Stop,
};

verus! {

/// The host of a `Host` header value: trimmed, without port, and without the
/// brackets of an IPv6 literal.
pub open spec fn spec_host_only(h: Seq<char>) -> Seq<char> {
    let t = trim(h);
    if t.len() > 0 && t[0] == '[' {
        before(t.drop_first(), ']')
    } else {
        before(t, ':')
    }
}

/// The pattern that ends a URL scheme.
pub open spec fn scheme_sep() -> Seq<char> {
    seq![':', '/', '/']
}

/// `referrer.split("://").nth(1).unwrap_or(referrer)`.
pub open spec fn spec_after_scheme(r: Seq<char>) -> Seq<char> {
    let k = first_match(r, scheme_sep());
    if k >= r.len() {
        r
    } else {
        let rest = r.skip(k + 3int);
        rest.take(first_match(rest, scheme_sep()) as int)
    }
}

/// The authority of a referrer URL, without user information.
pub open spec fn spec_authority(r: Seq<char>) -> Seq<char> {
    after_last(before_any(spec_after_scheme(r), seq!['/', '?', '#']), '@')
}

/// The host name of a `Referer` URL, or `None` when it is empty.
pub open spec fn spec_host_from_referrer(r: Seq<char>) -> Option<Seq<char>> {
    let h = trim(spec_host_only(spec_authority(r)));
    if h.len() == 0 {
        None
    } else {
        Some(h)
    }
}

/// Strip a port (and IPv6 brackets) from a Host header value.
pub fn host_only(host: &str) -> (r: &str)
    ensures
        r@ == spec_host_only(host@),
{
    let t = trim_str(host);
    let v = chars_of(t);
    let n = v.len();
    if n > 0 && v[0] == '[' {
        let stops = [']'];
        assert(stops@ =~= seq![']']);
        let k = find_first(&v, 1, n, &Stop::OneOf(&stops));
        assert(v@.subrange(1, n as int) =~= t@.drop_first());
        t.substring_char(1, k)
    } else {
        let stops = [':'];
        assert(stops@ =~= seq![':']);
        let k = find_first(&v, 0, n, &Stop::OneOf(&stops));
        assert(v@.subrange(0, n as int) =~= t@);
        t.substring_char(0, k)
    }
}

/// Pull the hostname out of a Referer URL: scheme://[user@]host[:port]/path?...
pub fn host_from_referrer(referrer: &str) -> (r: Option<String>)
    ensures
        r matches Some(h) ==> spec_host_from_referrer(referrer@) == Some(h@),
        r is None ==> spec_host_from_referrer(referrer@) is None,
{
    let v = chars_of(referrer);
    let n = v.len();
    let pat = [':', '/', '/'];
    assert(pat@ =~= scheme_sep());
    assert(v@.subrange(0, n as int) =~= v@);
    proof {
        lemma_first_match_props(v@, scheme_sep());
    }
    let k = find_pattern(&v, 0, n, &pat);
    let mut a: usize = 0;
    let mut b: usize = n;
    if k < n {
        a = k + 3;
        b = find_pattern(&v, a, n, &pat);
        assert(v@.subrange(a as int, n as int) =~= v@.skip(k + 3));
    }
    assert(v@.subrange(a as int, b as int) =~= spec_after_scheme(referrer@));
    let stops = ['/', '?', '#'];
    assert(stops@ =~= seq!['/', '?', '#']);
    let c = find_first(&v, a, b, &Stop::OneOf(&stops));
    assert(v@.subrange(a as int, c as int) =~= before_any(spec_after_scheme(referrer@), seq!['/', '?', '#']));
    let at = ['@'];
    assert(at@ =~= seq!['@']);
    let d = find_last_end(&v, a, c, &Stop::OneOf(&at));
    assert(v@.subrange(d as int, c as int) =~= spec_authority(referrer@));
    let authority = referrer.substring_char(d, c);
    let hostname = trim_str(host_only(authority));
    if hostname.unicode_len() == 0 {
        None
    } else {
        Some(hostname.to_owned())
    }
}

/// What `host_only` keeps is part of its input.
proof fn lemma_host_only_within(h: Seq<char>)
    ensures
        chars_within(spec_host_only(h), h),
{
    let t = trim(h);
    lemma_trim_props(h);
    if t.len() > 0 && t[0] == '[' {
        lemma_subrange_within(t, 1, t.len() as int);
        assert(t.drop_first() =~= t.subrange(1, t.len() as int));
        lemma_before_any_props(t.drop_first(), seq![']']);
        lemma_within_trans(spec_host_only(h), t.drop_first(), t);
    } else {
        lemma_before_any_props(t, seq![':']);
    }
    lemma_within_trans(spec_host_only(h), t, h);
}

/// The host name found in a referrer is nonempty, begins and ends with a
/// non-whitespace character, and holds no `/`, `?`, `#` or `@`: it is never a
/// path, a query, a fragment or user information.
pub proof fn lemma_referrer_host_shape(r: Seq<char>)
    requires
        spec_host_from_referrer(r) is Some,
    ensures
        ({
            let h = spec_host_from_referrer(r)->Some_0;
            &&& h.len() > 0
            &&& !is_ws(h[0]) && !is_ws(h.last())
            &&& forall|i: int|
                0 <= i < h.len() ==> #[trigger] h[i] != '/' && h[i] != '?' && h[i] != '#' && h[i] != '@'
        }),
{
    let stops = seq!['/', '?', '#'];
    let a = before_any(spec_after_scheme(r), stops);
    let b = after_last(a, '@');
    let ho = spec_host_only(b);
    let h = trim(ho);
    lemma_before_any_props(spec_after_scheme(r), stops);
    lemma_after_last_props(a, '@');
    lemma_host_only_within(b);
    lemma_trim_props(ho);
    lemma_within_trans(h, ho, b);
    assert forall|i: int| 0 <= i < h.len() implies #[trigger] h[i] != '/' && h[i] != '?' && h[i] != '#'
        && h[i] != '@' by {
        assert(b.contains(h[i]));
        let j = choose|j: int| 0 <= j < b.len() && b[j] == h[i];
        assert(a.contains(b[j]));
        let k = choose|k: int| 0 <= k < a.len() && a[k] == b[j];
        assert(!stops.contains(a[k]));
        assert(stops[0] == '/' && stops[1] == '?' && stops[2] == '#');
        if h[i] == '/' {
            assert(stops.contains(a[k]));
        }
        if h[i] == '?' {
            assert(stops.contains(a[k]));
        }
        if h[i] == '#' {
            assert(stops.contains(a[k]));
        }
    }
}

/// After an `https://` prefix, the text up to the next scheme separator.
proof fn lemma_after_https(x: Seq<char>)
    ensures
        spec_after_scheme("https://"@ + x) == x.take(first_match(x, scheme_sep()) as int),
{
    reveal_strlit("https://");
    let r = "https://"@ + x;
    let sep = scheme_sep();
    assert(r[0] == 'h' && r[1] == 't' && r[2] == 't' && r[3] == 'p' && r[4] == 's');
    assert forall|j: int| 0 <= j < 5 && j + sep.len() <= r.len() implies #[trigger] r.subrange(j, j + sep.len()) != sep by {
        assert(r.subrange(j, j + sep.len())[0] == r[j]);
    }
    assert(r.subrange(5, 5 + sep.len() as int) =~= sep);
    lemma_first_match_is(r, sep, 5);
    assert(r.skip(8) =~= x);
}

/// A text without `/` holds no scheme separator.
proof fn lemma_no_scheme_sep(x: Seq<char>)
    requires
        forall|i: int| 0 <= i < x.len() ==> #[trigger] x[i] != '/',
    ensures
        first_match(x, scheme_sep()) == x.len(),
{
    let sep = scheme_sep();
    assert forall|j: int| 0 <= j && j + sep.len() <= x.len() implies #[trigger] x.subrange(j, j + sep.len()) != sep by {
        assert(x.subrange(j, j + sep.len())[1] == x[j + 1]);
    }
    lemma_first_match_is(x, sep, x.len() as int);
}

/// Whether a text holds none of `/`, `?`, `#`.
pub open spec fn no_path_chars(x: Seq<char>) -> bool {
    forall|i: int| 0 <= i < x.len() ==> #[trigger] x[i] != '/' && x[i] != '?' && x[i] != '#'
}

/// Whether the trimmed text opens an IPv6 bracket that it never closes.
pub open spec fn opens_unclosed_bracket(a: Seq<char>) -> bool {
    let t = trim(a);
    t.len() > 0 && t[0] == '[' && !t.contains(']')
}

/// Cutting a text after its first `c` (or anywhere later) keeps what comes
/// before that `c`.
proof fn lemma_before_prefix(s: Seq<char>, c: char, m: int)
    requires
        first_where(s, one_of(seq![c])) <= m <= s.len(),
    ensures
        before(s.take(m), c) == before(s, c),
{
    let p = one_of(seq![c]);
    let f = first_where(s, p) as int;
    lemma_first_where_props(s, p);
    let t = s.take(m);
    assert forall|j: int| 0 <= j < f implies !p(#[trigger] t[j]) by {
        assert(t[j] == s[j]);
    }
    if f < m {
        assert(t[f] == s[f]);
    }
    lemma_first_where_is(t, p, f);
    assert(t.take(f) =~= s.take(f));
}

/// Dropping the final `:` of an authority leaves its host unchanged, unless
/// the authority opens an IPv6 bracket that it never closes.
proof fn lemma_host_only_drop_colon(a: Seq<char>)
    requires
        a.len() > 0,
        a.last() == ':',
        !opens_unclosed_bracket(a),
    ensures
        trim(spec_host_only(a.drop_last())) == trim(spec_host_only(a)),
{
    let n = a.len() as int;
    let b = a.drop_last();
    let nw = not_ws();
    let colon = one_of(seq![':']);
    let close = one_of(seq![']']);
    assert(seq![':'][0] == ':' && seq![']'][0] == ']');
    assert(nw(a[n - 1]));
    lemma_first_where_props(a, nw);
    lemma_last_where_is(a, nw, n - 1);
    let lo = first_where(a, nw) as int;
    let t = trim(a);
    assert(t =~= a.subrange(lo, n));
    assert(t.last() == ':');
    if lo == n - 1 {
        assert forall|j: int| 0 <= j < b.len() implies !nw(#[trigger] b[j]) by {
            assert(b[j] == a[j]);
        }
        lemma_first_where_is(b, nw, b.len() as int);
        lemma_last_where_is(b, nw, -1);
        assert(trim(b) =~= Seq::<char>::empty());
        assert(colon(t[0]));
        lemma_first_where_is(t, colon, 0);
        assert(spec_host_only(a) =~= Seq::<char>::empty());
        lemma_first_where_is(trim(b), colon, 0);
        assert(spec_host_only(b) =~= Seq::<char>::empty());
    } else {
        assert forall|j: int| 0 <= j < lo implies !nw(#[trigger] b[j]) by {
            assert(b[j] == a[j]);
        }
        assert(b[lo] == a[lo]);
        lemma_first_where_is(b, nw, lo);
        lemma_last_where_props(b, nw);
        let hi = last_where(b, nw) + 1;
        let u = trim(b);
        assert(u =~= b.subrange(lo, hi));
        let m = hi - lo;
        let cut = t.drop_last();
        assert forall|j: int| 0 <= j < m implies #[trigger] u[j] == t[j] by {
            assert(u[j] == b[lo + j]);
            assert(b[lo + j] == a[lo + j]);
        }
        assert(u =~= t.take(m));
        assert forall|j: int| m <= j < cut.len() implies !nw(#[trigger] cut[j]) by {
            assert(cut[j] == a[lo + j]);
            assert(b[lo + j] == a[lo + j]);
        }
        assert(nw(u[0]) && nw(u[m - 1]));
        if t[0] == '[' {
            let q = choose|q: int| 0 <= q < t.len() && t[q] == ']';
            assert(q != 0 && q != t.len() - 1);
            assert(q < m) by {
                if q >= m {
                    assert(cut[q] == t[q]);
                }
            }
            let d = t.drop_first();
            assert(d[q - 1] == ']');
            assert(close(d[q - 1]));
            lemma_first_where_props(d, close);
            assert(u.drop_first() =~= d.take(m - 1));
            lemma_before_prefix(d, ']', m - 1);
        } else {
            lemma_first_where_props(t, colon);
            assert(colon(t[t.len() - 1]));
            let f = first_where(t, colon) as int;
            if f <= m {
                lemma_before_prefix(t, ':', m);
            } else {
                assert forall|j: int| 0 <= j < cut.len() implies !colon(#[trigger] t[j]) by {
                    if j >= m {
                        assert(cut[j] == t[j]);
                        assert(!nw(t[j]));
                    }
                }
                lemma_first_where_is(t, colon, cut.len() as int);
                assert(spec_host_only(a) =~= cut);
                assert forall|j: int| 0 <= j < m implies !colon(#[trigger] u[j]) by {}
                lemma_first_where_is(u, colon, m);
                assert(spec_host_only(b) =~= u);
                lemma_first_where_is(cut, nw, 0);
                assert forall|j: int| m - 1 < j < cut.len() implies !nw(#[trigger] cut[j]) by {}
                lemma_last_where_is(cut, nw, m - 1);
                assert(trim(cut) =~= u);
                lemma_first_where_is(u, nw, 0);
                lemma_last_where_is(u, nw, m - 1);
                assert(trim(u) =~= u);
            }
        }
    }
}

/// The authority of an `https` referrer whose authority `a` is followed by a
/// `/` and any rest that does not form a second scheme separator.
proof fn lemma_path_keeps_authority(a: Seq<char>, p: Seq<char>)
    requires
        no_path_chars(a),
        forall|i: int| 0 <= i < a.len() ==> #[trigger] a[i] != '@',
        !(a.len() > 0 && a.last() == ':' && p.len() > 0 && p[0] == '/'),
    ensures
        spec_authority("https://"@ + a + seq!['/'] + p) == a,
{
    let stops = seq!['/', '?', '#'];
    assert(stops[0] == '/' && stops[1] == '?' && stops[2] == '#');
    let x = a + seq!['/'] + p;
    assert("https://"@ + a + seq!['/'] + p =~= "https://"@ + x);
    lemma_after_https(x);
    lemma_first_match_props(x, scheme_sep());
    let k = first_match(x, scheme_sep()) as int;
    assert(x[a.len() as int] == '/');
    if k <= a.len() {
        let sep = scheme_sep();
        assert(x.subrange(k, k + sep.len()) == sep);
        assert(x.subrange(k, k + sep.len())[0] == x[k]);
        assert(x.subrange(k, k + sep.len())[1] == x[k + 1]);
        assert(x.subrange(k, k + sep.len())[2] == x[k + 2]);
        if k + 1 < a.len() {
            assert(x[k + 1] == a[k + 1]);
        } else {
            assert(x[k] == a.last());
            assert(x[k + 2] == p[0]);
        }
        assert(false);
    }
    let t = x.take(k);
    assert forall|j: int| 0 <= j < a.len() implies !one_of(stops)(#[trigger] t[j]) by {
        assert(t[j] == a[j]);
    }
    assert(one_of(stops)(t[a.len() as int]));
    lemma_first_where_is(t, one_of(stops), a.len() as int);
    assert(before_any(t, stops) =~= a);
    let at = one_of(seq!['@']);
    assert(seq!['@'][0] == '@');
    assert forall|j: int| -1 < j < a.len() implies !at(#[trigger] a[j]) by {}
    lemma_last_where_is(a, at, -1);
    assert(after_last(a, '@') =~= a);
}

/// When the authority `a` ends with `:` and the rest starts with `/`, the
/// `:` `/` `/` forms a second scheme separator and the authority loses its
/// final `:`.
proof fn lemma_colon_slash_authority(a: Seq<char>, p: Seq<char>)
    requires
        no_path_chars(a),
        forall|i: int| 0 <= i < a.len() ==> #[trigger] a[i] != '@',
        a.len() > 0 && a.last() == ':' && p.len() > 0 && p[0] == '/',
    ensures
        spec_authority("https://"@ + a + seq!['/'] + p) == a.drop_last(),
{
    let stops = seq!['/', '?', '#'];
    assert(stops[0] == '/' && stops[1] == '?' && stops[2] == '#');
    let n = a.len() as int;
    let b = a.drop_last();
    let x = a + seq!['/'] + p;
    let sep = scheme_sep();
    assert("https://"@ + a + seq!['/'] + p =~= "https://"@ + x);
    lemma_after_https(x);
    assert forall|j: int| 0 <= j < n - 1 && j + sep.len() <= x.len() implies #[trigger] x.subrange(j, j + sep.len()) != sep by {
        assert(x.subrange(j, j + sep.len())[1] == x[j + 1]);
        assert(x[j + 1] == a[j + 1]);
    }
    assert(x.subrange(n - 1, n - 1 + sep.len()) =~= sep) by {
        assert(x[n - 1] == ':');
        assert(x[n] == '/');
        assert(x[n + 1] == p[0]);
    }
    lemma_first_match_is(x, sep, n - 1);
    assert(x.take(n - 1) =~= b);
    assert forall|j: int| 0 <= j < b.len() implies !one_of(stops)(#[trigger] b[j]) by {
        assert(b[j] == a[j]);
    }
    lemma_first_where_is(b, one_of(stops), b.len() as int);
    assert(before_any(b, stops) =~= b);
    let at = one_of(seq!['@']);
    assert(seq!['@'][0] == '@');
    assert forall|j: int| -1 < j < b.len() implies !at(#[trigger] b[j]) by {
        assert(b[j] == a[j]);
    }
    lemma_last_where_is(b, at, -1);
    assert(after_last(b, '@') =~= b);
}

/// A path, query or fragment after the authority, and user information before
/// the host, never change the host found in an `https` referrer.
///
/// The authority `a` must hold none of `/`, `?`, `#`, `@`, and the user
/// information `u` none of `/`, `?`, `#`. The rest `p` is any text. One shape
/// is left out, on which the host does change: `a` ends with `:`, `p` starts
/// with `/`, and `a` opens an IPv6 bracket that it never closes. Then `:` `/`
/// `/` forms a second scheme separator, the authority loses its final `:`, and
/// with the bracket unclosed that `:` was part of the host.
pub proof fn lemma_referrer_path_and_userinfo_keep_host(a: Seq<char>, p: Seq<char>, u: Seq<char>)
    requires
        no_path_chars(a),
        forall|i: int| 0 <= i < a.len() ==> #[trigger] a[i] != '@',
        no_path_chars(u),
        !(a.len() > 0 && a.last() == ':' && p.len() > 0 && p[0] == '/' && opens_unclosed_bracket(a)),
    ensures
        spec_host_from_referrer("https://"@ + a + seq!['/'] + p) == spec_host_from_referrer("https://"@ + a),
        spec_host_from_referrer("https://"@ + u + seq!['@'] + a) == spec_host_from_referrer("https://"@ + a),
{
    let stops = seq!['/', '?', '#'];
    let at = one_of(seq!['@']);
    assert(stops[0] == '/' && stops[1] == '?' && stops[2] == '#');
    assert(seq!['@'][0] == '@');
    // The bare authority.
    lemma_no_scheme_sep(a);
    lemma_after_https(a);
    assert(a.take(a.len() as int) =~= a);
    assert forall|j: int| 0 <= j < a.len() implies !one_of(stops)(#[trigger] a[j]) by {}
    lemma_first_where_is(a, one_of(stops), a.len() as int);
    assert(before_any(a, stops) =~= a);
    assert forall|j: int| -1 < j < a.len() implies !at(#[trigger] a[j]) by {}
    lemma_last_where_is(a, at, -1);
    assert(after_last(a, '@') =~= a);
    assert(spec_authority("https://"@ + a) == a);
    // With a path.
    if a.len() > 0 && a.last() == ':' && p.len() > 0 && p[0] == '/' {
        lemma_colon_slash_authority(a, p);
        lemma_host_only_drop_colon(a);
    } else {
        lemma_path_keeps_authority(a, p);
    }
    // With user information.
    let y = u + seq!['@'] + a;
    assert("https://"@ + u + seq!['@'] + a =~= "https://"@ + y);
    assert forall|j: int| 0 <= j < y.len() implies #[trigger] y[j] != '/' by {
        if j < u.len() {
            assert(y[j] == u[j]);
        } else if j > u.len() {
            assert(y[j] == a[j - u.len() - 1]);
        }
    }
    lemma_no_scheme_sep(y);
    lemma_after_https(y);
    assert(y.take(y.len() as int) =~= y);
    assert forall|j: int| 0 <= j < y.len() implies !one_of(stops)(#[trigger] y[j]) by {
        if j < u.len() {
            assert(y[j] == u[j]);
        } else if j > u.len() {
            assert(y[j] == a[j - u.len() - 1]);
        }
    }
    lemma_first_where_is(y, one_of(stops), y.len() as int);
    assert(before_any(y, stops) =~= y);
    assert forall|j: int| u.len() < j < y.len() implies !at(#[trigger] y[j]) by {
        assert(y[j] == a[j - u.len() - 1]);
    }
    assert(at(y[u.len() as int]));
    lemma_last_where_is(y, at, u.len() as int);
    assert(after_last(y, '@') =~= a);
    assert(spec_authority("https://"@ + y) == a);
}

/// The multi-label public suffixes recognised without a suffix list.
pub open spec fn two_label_suffixes() -> Seq<Seq<char>> {
    seq![
        "co.uk"@, "org.uk"@, "gov.uk"@, "ac.uk"@, "me.uk"@, "com.au"@, "net.au"@, "org.au"@,
        "gov.au"@, "co.jp"@, "co.nz"@, "co.za"@, "co.in"@, "co.kr"@, "com.br"@, "com.mx"@,
        "com.cn"@, "com.sg"@, "com.tr"@,
    ]
}

/// How many trailing labels form the public suffix: 2 for a known two-label
/// suffix such as `co.uk`, else 1.
pub open spec fn spec_public_suffix_labels(labels: Seq<Seq<char>>) -> nat {
    if labels.len() >= 2 && two_label_suffixes().contains(
        labels[labels.len() - 2] + seq!['.'] + labels[labels.len() - 1],
    ) {
        2
    } else {
        1
    }
}

/// Two trailing labels form the public suffix exactly when, joined by a dot,
/// they are one of `co.uk`, `org.uk`, `gov.uk`, `ac.uk`, `me.uk`, `com.au`,
/// `net.au`, `org.au`, `gov.au`, `co.jp`, `co.nz`, `co.za`, `co.in`, `co.kr`,
/// `com.br`, `com.mx`, `com.cn`, `com.sg`, `com.tr`; otherwise one label does.
pub proof fn lemma_public_suffix_list(labels: Seq<Seq<char>>)
    ensures
        spec_public_suffix_labels(labels) == (if labels.len() >= 2 && ({
            let x = labels[labels.len() - 2] + seq!['.'] + labels[labels.len() - 1];
            x == "co.uk"@ || x == "org.uk"@ || x == "gov.uk"@ || x == "ac.uk"@ || x == "me.uk"@
                || x == "com.au"@ || x == "net.au"@ || x == "org.au"@ || x == "gov.au"@ || x == "co.jp"@
                || x == "co.nz"@ || x == "co.za"@ || x == "co.in"@ || x == "co.kr"@ || x == "com.br"@
                || x == "com.mx"@ || x == "com.cn"@ || x == "com.sg"@ || x == "com.tr"@
        }) {
            2nat
        } else {
            1nat
        }),
{
    let l = two_label_suffixes();
    assert(l.len() == 19);
    assert(l[0] == "co.uk"@ && l[1] == "org.uk"@ && l[2] == "gov.uk"@ && l[3] == "ac.uk"@);
    assert(l[4] == "me.uk"@ && l[5] == "com.au"@ && l[6] == "net.au"@ && l[7] == "org.au"@);
    assert(l[8] == "gov.au"@ && l[9] == "co.jp"@ && l[10] == "co.nz"@ && l[11] == "co.za"@);
    assert(l[12] == "co.in"@ && l[13] == "co.kr"@ && l[14] == "com.br"@ && l[15] == "com.mx"@);
    assert(l[16] == "com.cn"@ && l[17] == "com.sg"@ && l[18] == "com.tr"@);
    if labels.len() >= 2 {
        let x = labels[labels.len() - 2] + seq!['.'] + labels[labels.len() - 1];
        if l.contains(x) {
            let i = choose|i: int| 0 <= i < l.len() && l[i] == x;
            assert(0 <= i < 19);
        }
    }
}

/// The views of a list of string slices.
pub open spec fn views(labels: Seq<&str>) -> Seq<Seq<char>> {
    labels.map_values(|l: &str| l@)
}

/// Minimal heuristic for multi-label public suffixes.
pub fn public_suffix_labels(labels: &[&str]) -> (r: usize)
    ensures
        r == spec_public_suffix_labels(views(labels@)),
{
    let n = labels.len();
    if n >= 2 {
        let mut last_two = labels[n - 2].to_owned();
        push_char(&mut last_two, '.');
        last_two.append(labels[n - 1]);
        assert(views(labels@)[n - 2] == labels@[n - 2]@);
        assert(views(labels@)[n - 1] == labels@[n - 1]@);
        assert(last_two@ =~= views(labels@)[n - 2] + seq!['.'] + views(labels@)[n - 1]);
        let suffixes: [&str; 19] = [
            "co.uk", "org.uk", "gov.uk", "ac.uk", "me.uk", "com.au", "net.au", "org.au",
            "gov.au", "co.jp", "co.nz", "co.za", "co.in", "co.kr", "com.br", "com.mx",
            "com.cn", "com.sg", "com.tr",
        ];
        assert(views(suffixes@) =~= two_label_suffixes());
        let mut i: usize = 0;
        while i < 19
            invariant
                i <= 19,
                views(suffixes@) == two_label_suffixes(),
                n == labels@.len(),
                n >= 2,
                last_two@ == views(labels@)[n - 2] + seq!['.'] + views(labels@)[n - 1],
                forall|j: int| 0 <= j < i ==> two_label_suffixes()[j] != last_two@,
            decreases 19 - i,
        {
            if str_eq(last_two.as_str(), suffixes[i]) {
                assert(views(suffixes@)[i as int] == suffixes@[i as int]@);
                assert(two_label_suffixes().contains(last_two@));
                return 2;
            }
            assert(views(suffixes@)[i as int] == suffixes@[i as int]@);
            i = i + 1;
        }
        assert(!two_label_suffixes().contains(last_two@));
    }
    1
}

/// `hostname.trim().trim_end_matches('.')`.
pub open spec fn spec_trim_dots(h: Seq<char>) -> Seq<char> {
    let t = trim(h);
    t.take(last_where(t, other_than('.')) + 1)
}

/// `char::to_ascii_lowercase`.
pub open spec fn ascii_lower(c: char) -> char {
    if 'A' <= c && c <= 'Z' {
        ((c as int) + 32) as char
    } else {
        c
    }
}

/// The host name as compared for subdomains: trimmed, without trailing dots,
/// ASCII-lowercased.
pub open spec fn spec_normalize_hostname(h: Seq<char>) -> Seq<char> {
    spec_trim_dots(h).map_values(|c: char| ascii_lower(c))
}

/// Normalise a host name before looking for its subdomain.
pub fn normalize_hostname(hostname: &str) -> (r: String)
    ensures
        r@ == spec_normalize_hostname(hostname@),
{
    let t = trim_str(hostname);
    let v = chars_of(t);
    let n = v.len();
    let e = find_last_end(&v, 0, n, &Stop::OtherThan('.'));
    assert(v@.subrange(0, n as int) =~= t@);
    let ghost kept = t@.take(e as int);
    let mut r = String::new();
    let mut i: usize = 0;
    while i < e
        invariant
            e <= n == v@.len(),
            v@ == t@,
            kept == t@.take(e as int),
            i <= e,
            r@ == kept.take(i as int).map_values(|c: char| ascii_lower(c)),
        decreases e - i,
    {
        let c = v[i];
        let l = if 'A' <= c && c <= 'Z' {
            ((c as u8) + 32) as char
        } else {
            c
        };
        assert(l == ascii_lower(c));
        push_char(&mut r, l);
        i = i + 1;
        assert(kept.take(i as int) =~= kept.take(i - 1).push(c));
        assert(r@ =~= kept.take(i as int).map_values(|c: char| ascii_lower(c)));
    }
    assert(kept.take(e as int) =~= kept);
    r
}

/// The nonempty pieces of a list, in order.
pub open spec fn nonempty_pieces(ps: Seq<Seq<char>>) -> Seq<Seq<char>>
    decreases ps.len(),
{
    if ps.len() == 0 {
        Seq::empty()
    } else if ps.last().len() > 0 {
        nonempty_pieces(ps.drop_last()).push(ps.last())
    } else {
        nonempty_pieces(ps.drop_last())
    }
}

/// The dot-separated nonempty labels of a host name.
pub open spec fn spec_labels(host: Seq<char>) -> Seq<Seq<char>> {
    nonempty_pieces(split_on(host, '.'))
}

/// The subdomain of a normalised host name: the labels left of the registrable
/// domain (public suffix plus one label), joined by dots.
pub open spec fn spec_subdomain_of_hostname(host: Seq<char>) -> Option<Seq<char>> {
    let labels = spec_labels(host);
    let registrable = spec_public_suffix_labels(labels) + 1;
    if labels.len() <= registrable {
        None
    } else {
        Some(join(labels.take(labels.len() - registrable), seq!['.']))
    }
}

/// Subdomain portion of a normalised hostname, or None if there isn't one.
/// "app.example.com" -> Some("app"), "example.com" -> None,
/// "a.b.example.co.uk" -> Some("a.b").
pub fn subdomain_of_hostname(host: &str) -> (r: Option<String>)
    ensures
        r matches Some(s) ==> spec_subdomain_of_hostname(host@) == Some(s@),
        r is None ==> spec_subdomain_of_hostname(host@) is None,
{
    let parts = split_str(host, '.');
    let ghost ps = split_on(host@, '.');
    let mut labels: Vec<&str> = Vec::new();
    let mut i: usize = 0;
    while i < parts.len()
        invariant
            i <= parts@.len() == ps.len(),
            ps == split_on(host@, '.'),
            forall|j: int| 0 <= j < parts@.len() ==> (#[trigger] parts@[j])@ == ps[j],
            views(labels@) == nonempty_pieces(ps.take(i as int)),
        decreases parts.len() - i,
    {
        let p = parts[i];
        let ghost before_labels = labels@;
        assert(ps.take(i + 1).drop_last() =~= ps.take(i as int));
        assert(ps.take(i + 1).last() == p@);
        if p.unicode_len() > 0 {
            labels.push(p);
            assert(views(labels@) =~= views(before_labels).push(p@));
        }
        i = i + 1;
    }
    assert(ps.take(parts@.len() as int) =~= ps);
    let registrable = public_suffix_labels(labels.as_slice()) + 1;
    if labels.len() <= registrable {
        None
    } else {
        let keep = labels.len() - registrable;
        let mut left: Vec<&str> = Vec::new();
        let mut j: usize = 0;
        while j < keep
            invariant
                keep <= labels@.len(),
                j <= keep,
                left@ =~= labels@.take(j as int),
            decreases keep - j,
        {
            left.push(labels[j]);
            j = j + 1;
            assert(left@ =~= labels@.take(j as int));
        }
        assert(views(left@) =~= views(labels@).take(keep as int));
        Some(join_strs(left.as_slice(), '.'))
    }
}

/// The subdomain of a host name, a dot, and the registrable domain (the
/// public suffix and one more label) spell the host's labels joined by dots.
pub proof fn lemma_subdomain_and_registrable_domain(host: Seq<char>)
    requires
        spec_subdomain_of_hostname(host) is Some,
    ensures
        ({
            let labels = spec_labels(host);
            let registrable = spec_public_suffix_labels(labels) + 1;
            join(labels, seq!['.']) == spec_subdomain_of_hostname(host)->Some_0 + seq!['.'] + join(
                labels.skip(labels.len() - registrable),
                seq!['.'],
            )
        }),
{
    let labels = spec_labels(host);
    let registrable = spec_public_suffix_labels(labels) + 1;
    let k = labels.len() - registrable;
    assert(labels =~= labels.take(k) + labels.skip(k));
    lemma_join_append(labels.take(k), labels.skip(k), seq!['.']);
}

/// `char::to_ascii_uppercase`.
pub open spec fn ascii_upper(c: char) -> char {
    if 'a' <= c && c <= 'z' {
        ((c as int) - 32) as char
    } else {
        c
    }
}

/// Whether `c` is an ASCII capital letter.
pub open spec fn is_ascii_upper(c: char) -> bool {
    'A' <= c && c <= 'Z'
}

/// A text without ASCII capital letters.
pub open spec fn no_ascii_upper(x: Seq<char>) -> bool {
    forall|i: int| 0 <= i < x.len() ==> !is_ascii_upper(#[trigger] x[i])
}

/// Normalisation ignores ASCII case: an uppercased host name normalises to
/// the same text, so it has the same subdomain.
pub proof fn lemma_normalize_ignores_case(h: Seq<char>)
    ensures
        spec_normalize_hostname(h.map_values(|c: char| ascii_upper(c))) == spec_normalize_hostname(h),
        spec_subdomain_of_hostname(spec_normalize_hostname(h.map_values(|c: char| ascii_upper(c))))
            == spec_subdomain_of_hostname(spec_normalize_hostname(h)),
{
    let g = h.map_values(|c: char| ascii_upper(c));
    assert forall|i: int| 0 <= i < h.len() implies not_ws()(#[trigger] h[i]) == not_ws()(g[i]) by {
        assert(g[i] == ascii_upper(h[i]));
    }
    lemma_where_congruent(h, g, not_ws());
    let th = trim(h);
    let tg = trim(g);
    lemma_first_where_props(h, not_ws());
    lemma_last_where_props(h, not_ws());
    assert(th.len() == tg.len());
    assert forall|i: int| 0 <= i < tg.len() implies tg[i] == ascii_upper(th[i]) by {
        let lo = first_where(h, not_ws()) as int;
        assert(tg[i] == g[lo + i]);
        assert(th[i] == h[lo + i]);
    }
    assert forall|i: int| 0 <= i < th.len() implies other_than('.')(#[trigger] th[i]) == other_than('.')(tg[i]) by {
        assert(tg[i] == ascii_upper(th[i]));
    }
    lemma_last_where_props(th, other_than('.'));
    lemma_where_congruent(th, tg, other_than('.'));
    let a = spec_normalize_hostname(g);
    let b = spec_normalize_hostname(h);
    assert(a.len() == b.len());
    assert forall|i: int| 0 <= i < a.len() implies a[i] == b[i] by {
        assert(tg[i] == ascii_upper(th[i]));
        assert(a[i] == ascii_lower(tg[i]));
        assert(b[i] == ascii_lower(th[i]));
    }
    assert(a =~= b);
}

/// Normalisation ignores surrounding whitespace and trailing dots: a trimmed
/// host name written as `" {h}.. "` normalises to the same text, so it has the
/// same subdomain.
pub proof fn lemma_normalize_ignores_padding(h: Seq<char>)
    requires
        trim(h) == h,
    ensures
        spec_normalize_hostname(seq![' '] + h + seq!['.', '.', ' ']) == spec_normalize_hostname(h),
        spec_subdomain_of_hostname(spec_normalize_hostname(seq![' '] + h + seq!['.', '.', ' ']))
            == spec_subdomain_of_hostname(spec_normalize_hostname(h)),
{
    let g = seq![' '] + h + seq!['.', '.', ' '];
    let n = h.len() as int;
    lemma_trim_props(h);
    assert(is_ws(' '));
    assert(g[0] == ' ');
    assert(g[n + 1] == '.' && g[n + 2] == '.' && g[n + 3] == ' ');
    assert(!is_ws(g[1])) by {
        if n > 0 {
            assert(g[1] == h[0]);
        }
    }
    assert forall|j: int| 0 <= j < 1 implies !not_ws()(#[trigger] g[j]) by {}
    lemma_first_where_is(g, not_ws(), 1);
    assert forall|j: int| n + 2 < j < g.len() implies !not_ws()(#[trigger] g[j]) by {}
    lemma_last_where_is(g, not_ws(), n + 2);
    let t = trim(g);
    assert(t =~= h + seq!['.', '.']);
    lemma_last_where_props(h, other_than('.'));
    let k = last_where(h, other_than('.'));
    assert forall|j: int| k < j < t.len() implies !other_than('.')(#[trigger] t[j]) by {
        if j < n {
            assert(t[j] == h[j]);
        }
    }
    if k >= 0 {
        assert(t[k] == h[k]);
    }
    lemma_last_where_is(t, other_than('.'), k);
    assert(spec_trim_dots(g) =~= spec_trim_dots(h));
}

/// The nonempty pieces are nonempty and are pieces.
proof fn lemma_nonempty_pieces_props(ps: Seq<Seq<char>>)
    ensures
        forall|i: int| 0 <= i < nonempty_pieces(ps).len() ==> (#[trigger] nonempty_pieces(ps)[i]).len() > 0
            && exists|j: int| 0 <= j < ps.len() && ps[j] == nonempty_pieces(ps)[i],
    decreases ps.len(),
{
    if ps.len() > 0 {
        let init = ps.drop_last();
        lemma_nonempty_pieces_props(init);
        assert forall|i: int| 0 <= i < nonempty_pieces(ps).len() implies (#[trigger] nonempty_pieces(ps)[i]).len() > 0
            && exists|j: int| 0 <= j < ps.len() && ps[j] == nonempty_pieces(ps)[i] by {
            if i < nonempty_pieces(init).len() {
                assert(nonempty_pieces(ps)[i] == nonempty_pieces(init)[i]);
                let j = choose|j: int| 0 <= j < init.len() && init[j] == nonempty_pieces(init)[i];
                assert(ps[j] == init[j]);
            } else {
                assert(nonempty_pieces(ps)[i] == ps.last());
                assert(ps[ps.len() - 1] == ps.last());
            }
        }
    }
}

/// The pieces of a text without capitals have none.
proof fn lemma_split_on_no_upper(s: Seq<char>, c: char)
    requires
        no_ascii_upper(s),
    ensures
        forall|i: int| 0 <= i < split_on(s, c).len() ==> no_ascii_upper(#[trigger] split_on(s, c)[i]),
    decreases s.len(),
{
    let k = first_where(s, one_of(seq![c])) as int;
    lemma_first_where_props(s, one_of(seq![c]));
    if k < s.len() {
        let r = s.skip(k + 1);
        assert forall|j: int| 0 <= j < r.len() implies !is_ascii_upper(#[trigger] r[j]) by {
            assert(r[j] == s[k + 1 + j]);
        }
        lemma_split_on_no_upper(r, c);
        assert forall|i: int| 0 <= i < split_on(s, c).len() implies no_ascii_upper(#[trigger] split_on(s, c)[i]) by {
            if i == 0 {
                let p = s.take(k);
                assert(split_on(s, c)[0] == p);
                assert forall|j: int| 0 <= j < p.len() implies !is_ascii_upper(#[trigger] p[j]) by {
                    assert(p[j] == s[j]);
                }
            } else {
                assert(split_on(s, c)[i] == split_on(r, c)[i - 1]);
            }
        }
    } else {
        assert forall|i: int| 0 <= i < split_on(s, c).len() implies no_ascii_upper(#[trigger] split_on(s, c)[i]) by {
            assert(split_on(s, c)[i] == s);
        }
    }
}

/// Joining texts without capitals by a separator without capitals gives a
/// text without capitals, and joining at least one nonempty text gives a
/// nonempty text.
proof fn lemma_join_no_upper(xs: Seq<Seq<char>>, sep: Seq<char>)
    requires
        no_ascii_upper(sep),
        forall|i: int| 0 <= i < xs.len() ==> no_ascii_upper(#[trigger] xs[i]),
    ensures
        no_ascii_upper(join(xs, sep)),
        xs.len() > 0 ==> join(xs, sep).len() >= xs[0].len(),
    decreases xs.len(),
{
    if xs.len() >= 2 {
        let rest = xs.drop_first();
        assert forall|i: int| 0 <= i < rest.len() implies no_ascii_upper(#[trigger] rest[i]) by {
            assert(rest[i] == xs[i + 1]);
        }
        lemma_join_no_upper(rest, sep);
        let a = xs[0];
        let b = join(rest, sep);
        let j = join(xs, sep);
        assert(j == a + sep + b);
        assert(no_ascii_upper(a));
        assert forall|i: int| 0 <= i < j.len() implies !is_ascii_upper(#[trigger] j[i]) by {
            if i < a.len() {
                assert(j[i] == a[i]);
            } else if i < a.len() + sep.len() {
                assert(j[i] == sep[i - a.len()]);
            } else {
                assert(j[i] == b[i - a.len() - sep.len()]);
            }
        }
    } else if xs.len() == 1 {
        assert(no_ascii_upper(xs[0]));
    }
}

/// The subdomain that normalisation leads to is nonempty, free of ASCII
/// capitals, and made of nonempty dot-free labels of the host joined by dots;
/// followed by a dot and the registrable domain it spells all the labels.
pub proof fn lemma_normalized_subdomain_shape(h: Seq<char>)
    requires
        spec_subdomain_of_hostname(spec_normalize_hostname(h)) is Some,
    ensures
        ({
            let host = spec_normalize_hostname(h);
            let labels = spec_labels(host);
            let k = labels.len() - (spec_public_suffix_labels(labels) + 1);
            let s = spec_subdomain_of_hostname(host)->Some_0;
            &&& s.len() > 0
            &&& no_ascii_upper(s)
            &&& k >= 1
            &&& s == join(labels.take(k), seq!['.'])
            &&& forall|j: int| 0 <= j < labels.len() ==> (#[trigger] labels[j]).len() > 0 && !labels[j].contains('.')
            &&& join(labels, seq!['.']) == s + seq!['.'] + join(labels.skip(k), seq!['.'])
        }),
{
    let host = spec_normalize_hostname(h);
    let ps = split_on(host, '.');
    let labels = spec_labels(host);
    let k = labels.len() - (spec_public_suffix_labels(labels) + 1);
    assert forall|i: int| 0 <= i < host.len() implies !is_ascii_upper(#[trigger] host[i]) by {}
    lemma_split_on_no_upper(host, '.');
    lemma_split_on_pieces(host, '.');
    lemma_nonempty_pieces_props(ps);
    assert forall|j: int| 0 <= j < labels.len() implies (#[trigger] labels[j]).len() > 0 && !labels[j].contains('.')
        && no_ascii_upper(labels[j]) by {
        let m = choose|m: int| 0 <= m < ps.len() && ps[m] == labels[j];
        assert(no_ascii_upper(ps[m]));
        if labels[j].contains('.') {
            let q = choose|q: int| 0 <= q < labels[j].len() && labels[j][q] == '.';
            assert(ps[m][q] == '.');
        }
    }
    let left = labels.take(k);
    assert forall|i: int| 0 <= i < left.len() implies no_ascii_upper(#[trigger] left[i]) by {
        assert(left[i] == labels[i]);
    }
    assert(no_ascii_upper(seq!['.']));
    lemma_join_no_upper(left, seq!['.']);
    assert(left[0] == labels[0]);
    lemma_subdomain_and_registrable_domain(host);
}

/// The subdomain of a host name, as the admin service finds it: the host name
/// is normalised; an empty result, or one that `is_address` (the test for a
/// bare IP address) accepts, has none; any other has its subdomain.
pub open spec fn spec_admin_subdomain(h: Seq<char>, is_address: spec_fn(Seq<char>) -> bool) -> Option<Seq<char>> {
    let host = spec_normalize_hostname(h);
    if host.len() == 0 || is_address(host) {
        None
    } else {
        spec_subdomain_of_hostname(host)
    }
}

/// The subdomain of an already normalised host name, given whether it is a
/// bare IP address: an empty host name or an address has none.
pub fn subdomain_unless_address(host: &str, is_address: bool) -> (r: Option<String>)
    ensures
        (host@.len() == 0 || is_address) ==> r is None,
        !(host@.len() == 0 || is_address) ==> (match spec_subdomain_of_hostname(host@) {
            Some(s) => r matches Some(t) && t@ == s,
            None => r is None,
        }),
{
    if host.unicode_len() == 0 || is_address {
        None
    } else {
        subdomain_of_hostname(host)
    }
}

/// Whatever the address test, the admin service finds the same subdomain for
/// a host name and for its ASCII-uppercased form, and, for a trimmed host
/// name `h`, for `" {h}.. "`; a subdomain it finds is nonempty, free of ASCII
/// capitals, and made of nonempty dot-free labels that, followed by a dot and
/// the registrable domain, spell the host's labels.
pub proof fn lemma_admin_subdomain_ignores_case_and_padding(h: Seq<char>, is_address: spec_fn(Seq<char>) -> bool)
    ensures
        spec_admin_subdomain(h.map_values(|c: char| ascii_upper(c)), is_address) == spec_admin_subdomain(h, is_address),
        trim(h) == h ==> spec_admin_subdomain(seq![' '] + h + seq!['.', '.', ' '], is_address)
            == spec_admin_subdomain(h, is_address),
        spec_admin_subdomain(h, is_address) is Some ==> ({
            let host = spec_normalize_hostname(h);
            let labels = spec_labels(host);
            let k = labels.len() - (spec_public_suffix_labels(labels) + 1);
            let s = spec_admin_subdomain(h, is_address)->Some_0;
            &&& s.len() > 0
            &&& no_ascii_upper(s)
            &&& s == join(labels.take(k), seq!['.'])
            &&& forall|j: int| 0 <= j < labels.len() ==> (#[trigger] labels[j]).len() > 0 && !labels[j].contains('.')
            &&& join(labels, seq!['.']) == s + seq!['.'] + join(labels.skip(k), seq!['.'])
        }),
{
    lemma_normalize_ignores_case(h);
    if trim(h) == h {
        lemma_normalize_ignores_padding(h);
    }
    if spec_admin_subdomain(h, is_address) is Some {
        lemma_normalized_subdomain_shape(h);
    }
}

} // verus!
