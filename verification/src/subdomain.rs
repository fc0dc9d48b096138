//! The subdomain of the host named by a `Host` or `Referer` URL.
use vstd::prelude::*;
use crate::error::{opt_opt_text, opt_text, text_result, CentraleError};
use crate::host::views;
use crate::text::{
    join, join_strs, lemma_join_append, lemma_join_split_on, lemma_split_on_append, lemma_split_on_free,
    lemma_split_on_nonempty, prefix_strs, split_on, split_str,
};
use crate::web::{header_text, header_value_str, parse_url_host, url_host};

verus! {

/// A subdomain owned by the user, with its display name.
pub struct SubdomainAndName {
    pub subdomain: String,
    pub name: String,
}

/// All labels but the last two (domain and top-level domain), joined by dots.
pub open spec fn spec_extract_subdomain(parts: Seq<Seq<char>>) -> Option<Seq<char>> {
    if parts.len() > 2 {
        Some(join(parts.take(parts.len() - 2), seq!['.']))
    } else {
        None
    }
}

/// The subdomain of a host name: the labels before the domain and top-level
/// domain; an absent or empty subdomain is an error.
pub open spec fn spec_subdomain_from_host(host: Seq<char>) -> Result<Seq<char>, CentraleError> {
    match spec_extract_subdomain(split_on(host, '.')) {
        Some(s) => if s.len() > 0 {
            Ok(s)
        } else {
            Err(CentraleError::MissingSubdomain)
        },
        None => Err(CentraleError::MissingSubdomain),
    }
}

/// The subdomain for the outcome of parsing a URL.
pub open spec fn spec_subdomain_from_url_host(parsed: Option<Option<Seq<char>>>) -> Result<Seq<char>, CentraleError> {
    match parsed {
        None => Err(CentraleError::UrlParse),
        Some(None) => Err(CentraleError::MissingHost),
        Some(Some(host)) => spec_subdomain_from_host(host),
    }
}

/// The subdomain of the URL held by a header value.
pub open spec fn spec_get_subdomain(input: Seq<u8>) -> Result<Seq<char>, CentraleError> {
    match header_text(input) {
        None => Err(CentraleError::InvalidSubdomain),
        Some(url) => spec_subdomain_from_url_host(url_host(url)),
    }
}

/// Join all parts except the last two (which are the domain and TLD).
pub fn extract_subdomain(parts: Vec<&str>) -> (r: Option<String>)
    ensures
        opt_text(r) == spec_extract_subdomain(views(parts@)),
{
    let n = parts.len();
    if n > 2 {
        let left = prefix_strs(parts.as_slice(), n - 2);
        let s = join_strs(left.as_slice(), '.');
        assert(views(left@) =~= views(parts@).take(n - 2));
        Some(s)
    } else {
        None
    }
}

/// The subdomain of a host name.
pub fn subdomain_from_host(host: &str) -> (r: Result<String, CentraleError>)
    ensures
        text_result(r) == spec_subdomain_from_host(host@),
{
    let parts = split_str(host, '.');
    assert(views(parts@) =~= split_on(host@, '.'));
    match extract_subdomain(parts) {
        Some(s) => {
            if s.as_str().unicode_len() > 0 {
                Ok(s)
            } else {
                Err(CentraleError::MissingSubdomain)
            }
        },
        None => Err(CentraleError::MissingSubdomain),
    }
}

/// The subdomain for the outcome of parsing a URL: `None` when it did not
/// parse, `Some(None)` when it has no host.
pub fn subdomain_from_url_host(parsed: Option<Option<String>>) -> (r: Result<String, CentraleError>)
    ensures
        text_result(r) == spec_subdomain_from_url_host(opt_opt_text(parsed)),
{
    match parsed {
        None => Err(CentraleError::UrlParse),
        Some(None) => Err(CentraleError::MissingHost),
        Some(Some(host)) => subdomain_from_host(host.as_str()),
    }
}

/// The subdomain of the URL held by a `Host` or `Referer` header value.
pub fn get_subdomain(input_url: &[u8]) -> (r: Result<String, CentraleError>)
    ensures
        text_result(r) == spec_get_subdomain(input_url@),
{
    match header_value_str(input_url) {
        None => Err(CentraleError::InvalidSubdomain),
        Some(url) => subdomain_from_url_host(parse_url_host(url.as_str())),
    }
}

/// A subdomain, followed by a dot, the domain, a dot and the top-level domain,
/// spells the whole host: the subdomain drops exactly the last two labels.
pub proof fn lemma_subdomain_rebuilds_host(host: Seq<char>)
    requires
        spec_subdomain_from_host(host) is Ok,
    ensures
        ({
            let parts = split_on(host, '.');
            let n = parts.len();
            &&& n > 2
            &&& host == spec_subdomain_from_host(host)->Ok_0 + seq!['.'] + parts[n - 2] + seq!['.']
                + parts[n - 1]
        }),
{
    let parts = split_on(host, '.');
    let n = parts.len();
    lemma_join_split_on(host, '.');
    let a = parts.take(n - 2);
    let b = parts.skip(n - 2);
    assert(parts =~= a + b);
    lemma_join_append(a, b, seq!['.']);
    assert(b.drop_first() =~= seq![parts[n - 1]]);
    assert(b.len() == 2);
    assert(b[0] == parts[n - 2]);
    assert(join(b.drop_first(), seq!['.']) == parts[n - 1]);
    assert(join(b, seq!['.']) == parts[n - 2] + seq!['.'] + parts[n - 1]);
}

/// A list of labels ending in a domain and a top-level domain, with at least
/// one label before them, has as subdomain the labels before them joined by
/// dots.
pub proof fn lemma_extract_subdomain_drops_two_labels(left: Seq<Seq<char>>, domain: Seq<char>, tld: Seq<char>)
    requires
        left.len() > 0,
    ensures
        spec_extract_subdomain(left + seq![domain, tld]) == Some(join(left, seq!['.'])),
{
    assert((left + seq![domain, tld]).take(left.len() as int) =~= left);
}

/// Any host `s.d.t` whose subdomain `s` is nonempty (it may hold dots) and
/// whose domain `d` and top-level domain `t` are dot-free labels has the
/// subdomain `s`.
pub proof fn lemma_subdomain_of_host(s: Seq<char>, d: Seq<char>, t: Seq<char>)
    requires
        s.len() > 0,
        !d.contains('.'),
        !t.contains('.'),
    ensures
        spec_subdomain_from_host(s + seq!['.'] + d + seq!['.'] + t) == Ok::<Seq<char>, CentraleError>(s),
{
    let dt = d + seq!['.'] + t;
    assert(s + seq!['.'] + d + seq!['.'] + t =~= s + seq!['.'] + dt);
    lemma_split_on_append(s, '.', dt);
    lemma_split_on_append(d, '.', t);
    lemma_split_on_free(d, '.');
    lemma_split_on_free(t, '.');
    lemma_split_on_nonempty(s, '.');
    let parts = split_on(s, '.');
    assert(split_on(s + seq!['.'] + dt, '.') =~= parts + seq![d, t]);
    lemma_extract_subdomain_drops_two_labels(parts, d, t);
    lemma_join_split_on(s, '.');
}

/// A host is refused only as lacking a subdomain, and exactly when it has at
/// most two labels or nothing before its last two.
pub proof fn lemma_subdomain_refusal(host: Seq<char>)
    ensures
        spec_subdomain_from_host(host) is Err ==> spec_subdomain_from_host(host)
            == Err::<Seq<char>, CentraleError>(CentraleError::MissingSubdomain),
        spec_subdomain_from_host(host) is Err <==> (split_on(host, '.').len() <= 2 || join(
            split_on(host, '.').take(split_on(host, '.').len() - 2),
            seq!['.'],
        ).len() == 0),
{
}

} // verus!
