//! The decisions of the wildcard proxy: which header names the host, which
//! credential identifies the user, which subdomain is meant, and what is sent
//! upstream.
use vstd::prelude::*;
use crate::auth::CentraleUser;
use crate::error::{opt_opt_text, text_result, CentraleError};
use crate::text::{ends_with, join, lemma_join_split_on, lemma_split_on_append, lemma_split_on_free, lemma_split_on_pieces, push_char, split_on, split_str, starts_with, str_ends_with, str_eq, str_starts_with};
use crate::web::{header_text, header_value_str, parse_url_host, url_host};

verus! {

/// The header that names the host: `Host` when present, else `Referer`.
pub fn get_host<'a>(host: Option<&'a [u8]>, referer: Option<&'a [u8]>) -> (r: Result<&'a [u8], CentraleError>)
    ensures
        host matches Some(h) ==> r == Ok::<&'a [u8], CentraleError>(h),
        host is None ==> (referer matches Some(f) ==> r == Ok::<&'a [u8], CentraleError>(f)),
        host is None && referer is None ==> r == Err::<&'a [u8], CentraleError>(
            CentraleError::NoHostNoReferer,
        ),
{
    match host {
        Some(h) => Ok(h),
        None => match referer {
            Some(f) => Ok(f),
            None => Err(CentraleError::NoHostNoReferer),
        },
    }
}

/// What identifies the user of a request.
pub enum Credential {
    /// The text of the `Authorization` header.
    BearerToken(String),
    /// The `centrale` cookie, as `name=value`.
    Cookie(String),
}

/// The credential of a request: the `Authorization` header when present (it
/// must be text), else the `centrale` cookie.
pub fn choose_credential(token: Option<&[u8]>, cookie: Option<String>) -> (r: Result<Credential, CentraleError>)
    ensures
        token matches Some(t) ==> match header_text(t@) {
            Some(s) => r matches Ok(Credential::BearerToken(b)) && b@ == s,
            None => r == Err::<Credential, CentraleError>(CentraleError::HeaderNotText),
        },
        token is None ==> match cookie {
            Some(c) => r matches Ok(Credential::Cookie(k)) && k@ == c@,
            None => r == Err::<Credential, CentraleError>(CentraleError::NoTokenOrCookiePresent),
        },
{
    match token {
        Some(t) => match header_value_str(t) {
            Some(s) => Ok(Credential::BearerToken(s)),
            None => Err(CentraleError::HeaderNotText),
        },
        None => match cookie {
            Some(c) => Ok(Credential::Cookie(c)),
            None => Err(CentraleError::NoTokenOrCookiePresent),
        },
    }
}

/// The subdomain of a host of exactly three labels: the first label.
pub open spec fn spec_proxy_subdomain_from_host(host: Seq<char>) -> Result<Seq<char>, CentraleError> {
    let parts = split_on(host, '.');
    if parts.len() == 3 {
        Ok(parts[0])
    } else {
        Err(CentraleError::InvalidSubdomain)
    }
}

/// The subdomain for the outcome of parsing a URL.
pub open spec fn spec_proxy_subdomain_from_url_host(parsed: Option<Option<Seq<char>>>) -> Result<Seq<char>, CentraleError> {
    match parsed {
        None => Err(CentraleError::UrlParse),
        Some(None) => Err(CentraleError::MissingHost),
        Some(Some(host)) => spec_proxy_subdomain_from_host(host),
    }
}

/// The subdomain of the URL held by a header value.
pub open spec fn spec_proxy_get_subdomain(input: Seq<u8>) -> Result<Seq<char>, CentraleError> {
    match header_text(input) {
        None => Err(CentraleError::UnableToParseUrl),
        Some(url) => spec_proxy_subdomain_from_url_host(url_host(url)),
    }
}

/// The subdomain of a host name of three labels.
pub fn subdomain_from_host(host: &str) -> (r: Result<String, CentraleError>)
    ensures
        text_result(r) == spec_proxy_subdomain_from_host(host@),
{
    let parts = split_str(host, '.');
    if parts.len() == 3 {
        Ok(parts[0].to_owned())
    } else {
        Err(CentraleError::InvalidSubdomain)
    }
}

/// The subdomain for the outcome of parsing a URL: `None` when it did not
/// parse, `Some(None)` when it has no host.
pub fn subdomain_from_url_host(parsed: Option<Option<String>>) -> (r: Result<String, CentraleError>)
    ensures
        text_result(r) == spec_proxy_subdomain_from_url_host(opt_opt_text(parsed)),
{
    match parsed {
        None => Err(CentraleError::UrlParse),
        Some(None) => Err(CentraleError::MissingHost),
        Some(Some(host)) => subdomain_from_host(host.as_str()),
    }
}

/// The subdomain that a proxied request is for, from its `Host` or `Referer`
/// header value: the host must have exactly three labels.
pub fn get_subdomain(input_url: &[u8]) -> (r: Result<String, CentraleError>)
    ensures
        text_result(r) == spec_proxy_get_subdomain(input_url@),
{
    match header_value_str(input_url) {
        None => Err(CentraleError::UnableToParseUrl),
        Some(url) => subdomain_from_url_host(parse_url_host(url.as_str())),
    }
}

/// A proxied subdomain is the first of exactly three dot-free labels, which,
/// joined by dots, spell the host.
pub proof fn lemma_proxy_subdomain_is_first_label(host: Seq<char>)
    requires
        spec_proxy_subdomain_from_host(host) is Ok,
    ensures
        ({
            let s = spec_proxy_subdomain_from_host(host)->Ok_0;
            let parts = split_on(host, '.');
            &&& host == s + seq!['.'] + parts[1] + seq!['.'] + parts[2]
            &&& forall|i: int, j: int| 0 <= i < 3 && 0 <= j < parts[i].len() ==> #[trigger] parts[i][j] != '.'
        }),
{
    let parts = split_on(host, '.');
    lemma_join_split_on(host, '.');
    lemma_split_on_pieces(host, '.');
    let sep = seq!['.'];
    assert(parts.drop_first().drop_first() =~= seq![parts[2]]);
    assert(join(parts.drop_first().drop_first(), sep) == parts[2]);
    assert(join(parts.drop_first(), sep) == parts[1] + sep + parts[2]);
    assert(join(parts, sep) =~= parts[0] + sep + parts[1] + sep + parts[2]);
}

/// Any host of three dot-free labels `a.b.c` is proxied for the subdomain `a`,
/// whatever the labels are.
pub proof fn lemma_proxy_subdomain_of_three_labels(a: Seq<char>, b: Seq<char>, c: Seq<char>)
    requires
        !a.contains('.'),
        !b.contains('.'),
        !c.contains('.'),
    ensures
        spec_proxy_subdomain_from_host(a + seq!['.'] + b + seq!['.'] + c) == Ok::<Seq<char>, CentraleError>(a),
{
    let bc = b + seq!['.'] + c;
    assert(a + seq!['.'] + b + seq!['.'] + c =~= a + seq!['.'] + bc);
    lemma_split_on_append(a, '.', bc);
    lemma_split_on_append(b, '.', c);
    lemma_split_on_free(a, '.');
    lemma_split_on_free(b, '.');
    lemma_split_on_free(c, '.');
    assert(split_on(a + seq!['.'] + bc, '.') =~= seq![a, b, c]);
}

/// A host that is refused is refused as an invalid subdomain, and only a host
/// that does not split into three labels is refused.
pub proof fn lemma_proxy_subdomain_refusal(host: Seq<char>)
    ensures
        spec_proxy_subdomain_from_host(host) is Err <==> split_on(host, '.').len() != 3,
        spec_proxy_subdomain_from_host(host) is Err ==> spec_proxy_subdomain_from_host(host)
            == Err::<Seq<char>, CentraleError>(CentraleError::InvalidSubdomain),
{
}

/// The file extensions of front-end assets.
pub open spec fn front_extensions() -> Seq<Seq<char>> {
    seq![
        ".gif"@, ".jpg"@, ".png"@, ".ttf"@, ".css"@, ".map"@, ".svg"@, ".ico"@, ".js"@, ".json"@,
        ".wasm"@, ".woff2"@,
    ]
}

/// Whether a forwarding URL asks for the front end: the destination's index,
/// a source or web folder, an asset by extension, a favicon variant, or the font.
pub open spec fn spec_is_front(url: Seq<char>, destination: Seq<char>) -> bool {
    ||| url == destination + seq!['/']
    ||| starts_with(url, "/src"@)
    ||| starts_with(url, "/web"@)
    ||| exists|i: int| 0 <= i < front_extensions().len() && ends_with(url, #[trigger] front_extensions()[i])
    ||| (starts_with(url, "/favicon"@) && !starts_with(url, "/favicon.ico"@))
    ||| starts_with(url, "/OpenSans-Regular."@)
}

/// A forwarding URL asks for the front end exactly when it is the
/// destination's index (`destination` and `/`), starts with `/src` or `/web`,
/// ends with one of `.gif`, `.jpg`, `.png`, `.ttf`, `.css`, `.map`, `.svg`,
/// `.ico`, `.js`, `.json`, `.wasm`, `.woff2`, is a favicon other than
/// `/favicon.ico`, or is the `OpenSans-Regular` font.
pub proof fn lemma_front_end_requests(url: Seq<char>, destination: Seq<char>)
    ensures
        spec_is_front(url, destination) == (url == destination + seq!['/'] || starts_with(url, "/src"@)
            || starts_with(url, "/web"@) || ends_with(url, ".gif"@) || ends_with(url, ".jpg"@)
            || ends_with(url, ".png"@) || ends_with(url, ".ttf"@) || ends_with(url, ".css"@)
            || ends_with(url, ".map"@) || ends_with(url, ".svg"@) || ends_with(url, ".ico"@)
            || ends_with(url, ".js"@) || ends_with(url, ".json"@) || ends_with(url, ".wasm"@)
            || ends_with(url, ".woff2"@) || (starts_with(url, "/favicon"@) && !starts_with(
            url,
            "/favicon.ico"@,
        )) || starts_with(url, "/OpenSans-Regular."@)),
{
    let e = front_extensions();
    assert(e[0] == ".gif"@ && e[1] == ".jpg"@ && e[2] == ".png"@ && e[3] == ".ttf"@);
    assert(e[4] == ".css"@ && e[5] == ".map"@ && e[6] == ".svg"@ && e[7] == ".ico"@);
    assert(e[8] == ".js"@ && e[9] == ".json"@ && e[10] == ".wasm"@ && e[11] == ".woff2"@);
    assert(e.len() == 12);
    let any_ext = exists|i: int| 0 <= i < e.len() && ends_with(url, #[trigger] e[i]);
    if any_ext {
        let i = choose|i: int| 0 <= i < e.len() && ends_with(url, #[trigger] e[i]);
        assert(0 <= i < 12);
    }
}

/// Whether the forwarding URL is served from the front-end folder.
pub fn is_front(url: &str, destination_server_address: &str) -> (r: bool)
    ensures
        r == spec_is_front(url@, destination_server_address@),
{
    let mut index = destination_server_address.to_owned();
    push_char(&mut index, '/');
    assert(index@ =~= destination_server_address@ + seq!['/']);
    if str_eq(url, index.as_str()) {
        return true;
    }
    if str_starts_with(url, "/src") || str_starts_with(url, "/web") {
        return true;
    }
    let extensions: [&str; 12] = [
        ".gif", ".jpg", ".png", ".ttf", ".css", ".map", ".svg", ".ico", ".js", ".json", ".wasm",
        ".woff2",
    ];
    assert(extensions@.map_values(|e: &str| e@) =~= front_extensions());
    let mut i: usize = 0;
    while i < 12
        invariant
            i <= 12,
            extensions@.map_values(|e: &str| e@) == front_extensions(),
            url@ != destination_server_address@ + seq!['/'],
            !starts_with(url@, "/src"@),
            !starts_with(url@, "/web"@),
            forall|j: int| 0 <= j < i ==> !ends_with(url@, #[trigger] front_extensions()[j]),
        decreases 12 - i,
    {
        assert(extensions@.map_values(|e: &str| e@)[i as int] == extensions@[i as int]@);
        if str_ends_with(url, extensions[i]) {
            return true;
        }
        i = i + 1;
    }
    if str_starts_with(url, "/favicon") && !str_starts_with(url, "/favicon.ico") {
        return true;
    }
    if str_starts_with(url, "/OpenSans-Regular.") {
        return true;
    }
    false
}

/// A request to the destination server.
pub struct UpstreamRequest {
    /// Where the request goes.
    pub url: String,
    /// Header names and values, in order.
    pub headers: Vec<(String, String)>,
    /// The body to send, if any.
    pub body: Option<Vec<u8>>,
}

/// The views of a header list.
pub open spec fn header_views(headers: Seq<(String, String)>) -> Seq<(Seq<char>, Seq<char>)> {
    headers.map_values(|h: (String, String)| (h.0@, h.1@))
}

/// The headers that carry the user's standing to the destination server.
pub open spec fn spec_identity_headers(user: CentraleUser) -> Seq<(Seq<char>, Seq<char>)> {
    seq![
        ("authorization"@, "Bearer "@ + user.destination_bearer@),
        ("centrale_subdomain"@, user.subdomain@),
        ("centrale_password"@, user.pass@),
        ("centrale_role"@, user.role@),
    ]
}

/// The forwarding address: `https://` then the user's URL.
pub open spec fn spec_upstream_url(user: CentraleUser) -> Seq<char> {
    "https://"@ + user.url@
}

fn identity_headers(user: &CentraleUser) -> (r: Vec<(String, String)>)
    ensures
        header_views(r@) == spec_identity_headers(*user),
{
    let mut bearer = "Bearer ".to_owned();
    bearer.append(user.destination_bearer.as_str());
    let mut r: Vec<(String, String)> = Vec::new();
    r.push(("authorization".to_owned(), bearer));
    r.push(("centrale_subdomain".to_owned(), user.subdomain.clone()));
    r.push(("centrale_password".to_owned(), user.pass.clone()));
    r.push(("centrale_role".to_owned(), user.role.clone()));
    assert(header_views(r@) =~= spec_identity_headers(*user));
    r
}

fn upstream_url(user: &CentraleUser) -> (r: String)
    ensures
        r@ == spec_upstream_url(*user),
{
    let mut url = "https://".to_owned();
    url.append(user.url.as_str());
    url
}

/// The request forwarded for a request without payload.
pub fn upstream_request(user: &CentraleUser) -> (r: UpstreamRequest)
    ensures
        r.url@ == spec_upstream_url(*user),
        header_views(r.headers@) == spec_identity_headers(*user),
        r.body is None,
{
    UpstreamRequest { url: upstream_url(user), headers: identity_headers(user), body: None }
}

/// The request forwarded for a request with payload: the request's content
/// type when it is text, and the body byte for byte when it is not empty.
pub fn upstream_request_with_payload(user: &CentraleUser, content_type: Option<&[u8]>, body: &[u8]) -> (r: UpstreamRequest)
    ensures
        r.url@ == spec_upstream_url(*user),
        ({
            let extra = match content_type {
                Some(ct) => match header_text(ct@) {
                    Some(t) => seq![("content-type"@, t)],
                    None => Seq::empty(),
                },
                None => Seq::empty(),
            };
            header_views(r.headers@) == spec_identity_headers(*user) + extra
        }),
        body@.len() == 0 ==> r.body is None,
        body@.len() > 0 ==> (r.body matches Some(b) && b@ == body@),
{
    let mut headers = identity_headers(user);
    let ghost base = headers@;
    match content_type {
        Some(ct) => match header_value_str(ct) {
            Some(t) => {
                headers.push(("content-type".to_owned(), t));
                assert(header_views(headers@) =~= header_views(base) + seq![("content-type"@, t@)]);
            },
            None => {
                assert(header_views(headers@) =~= header_views(base) + Seq::empty());
            },
        },
        None => {
            assert(header_views(headers@) =~= header_views(base) + Seq::empty());
        },
    }
    let payload = if body.len() == 0 {
        None
    } else {
        Some(vstd::slice::slice_to_vec(body))
    };
    UpstreamRequest { url: upstream_url(user), headers, body: payload }
}

/// What the wildcard route does with an authenticated request.
pub enum WildcardAction {
    /// Hand the connection to the streaming proxy.
    Stream,
    /// Serve the file from the front-end folder.
    ServeFront,
    /// Forward the request to the destination server.
    Forward(UpstreamRequest),
}

/// The wildcard route's choice: streams first, then front-end assets, else forward.
pub fn wildcard_action(is_streaming: bool, user: &CentraleUser, destination_server_address: &str) -> (r: WildcardAction)
    ensures
        is_streaming ==> r is Stream,
        !is_streaming && spec_is_front(user.url@, destination_server_address@) ==> r is ServeFront,
        !is_streaming && !spec_is_front(user.url@, destination_server_address@) ==> (r matches WildcardAction::Forward(req)
            && req.url@ == spec_upstream_url(*user) && header_views(req.headers@) == spec_identity_headers(*user)
            && req.body is None),
{
    if is_streaming {
        WildcardAction::Stream
    } else if is_front(user.url.as_str(), destination_server_address) {
        WildcardAction::ServeFront
    } else {
        WildcardAction::Forward(upstream_request(user))
    }
}

} // verus!
