//! How the proxy treats its clients.

use vstd::prelude::*;
use vstd::utf8::{encode_utf8, valid_utf8};

use crate::common::auth::AuthErrorView;
use crate::proxy::http::{
    address, admission, after_check, after_connect, after_naming, after_reading, base64_decoded,
    credentials, forwarding_to, login_in, meeting, relative_path, securing, serving, target_of,
    tls_name, url_parsed, url_view, AskedView, Connecting, CredentialsView, HttpErrorView,
    HttpProxy, HttpProxyError, HttpStep, OnwardView, RouteView, StepView, TargetUrl, UrlView,
};
use crate::proxy::request::{
    find_header, outgoing, HeaderView, ReadingView, RequestView, StageView,
};
use crate::proxy::wire::law_first_header_of_a_name_is_found;
use crate::text::case::lowercase;
use crate::text::number::decimal;
use crate::text::scan::{
    law_first_occurrence_is_replaced, law_prefix_comes_off, law_text_is_cut_at_the_first,
    replace_first,
};
use crate::text::utf::utf8_error;

verus! {

/// Different methods are different texts.
proof fn lemma_methods()
    ensures
        "CONNECT"@ != "GET"@,
        "CONNECT"@ != "POST"@,
        "CONNECT"@ != "PUT"@,
        "CONNECT"@ != "DELETE"@,
        "CONNECT"@ != "HEAD"@,
        "CONNECT"@ != "OPTIONS"@,
        "CONNECT"@ != "PATCH"@,
{
    reveal_strlit("CONNECT");
    reveal_strlit("GET");
    reveal_strlit("POST");
    reveal_strlit("PUT");
    reveal_strlit("DELETE");
    reveal_strlit("HEAD");
    reveal_strlit("OPTIONS");
    reveal_strlit("PATCH");
    assert("CONNECT"@[0] == 'C');
}

/// A request for a tunnel is never turned down: whatever its path, the proxy connects to the path
/// as it stands, and once connected answers 200 and lets both sides talk. Nothing else of the
/// request matters, and neither does the route.
pub proof fn law_connect_opens_a_tunnel(
    route: RouteView,
    path: Seq<char>,
    version: Seq<char>,
    headers: Seq<HeaderView>,
    body: Seq<u8>,
)
    ensures
        ({
            let request = RequestView { method: "CONNECT"@, path, version, headers, body };
            let step = StepView::Connect(
                path,
                OnwardView::Tunnel,
                AskedView { method: "CONNECT"@, path },
            );
            &&& serving(route, request) == step
            &&& meeting(Map::empty(), route, request) == step
            &&& after_check(route, request, Ok(true)) == step
        }),
        after_connect(OnwardView::Tunnel) == StepView::Tunnel(
            encode_utf8("HTTP/1.1 200 Connection Established\r\n\r\n"@),
        ),
{
}

/// A request with one of the methods that are sent on is sent on, each alike, to the URL that its
/// path stands for. Any other method but `CONNECT` is turned down by its name.
pub proof fn law_methods(route: RouteView, request: RequestView)
    ensures
        ({
            let method = request.method;
            let url = url_parsed(target_of(route.base, request.path));
            if method == "GET"@ || method == "POST"@ || method == "PUT"@ || method == "DELETE"@
                || method == "HEAD"@ || method == "OPTIONS"@ || method == "PATCH"@ {
                serving(route, request) == forwarding_to(route, request, url)
            } else {
                method == "CONNECT"@ || serving(route, request) == StepView::Fail(
                    HttpErrorView::UnsupportedMethod(method),
                )
            }
        }),
{
    lemma_methods();
}

/// What the target is asked for: the path, and the query behind a question mark where there is one.
pub open spec fn has_relative(url: UrlView, relative: Seq<char>) -> bool {
    match url.query {
        None => relative == url.path,
        Some(query) => relative == url.path + seq!['?'] + query,
    }
}

proof fn lemma_relative(url: UrlView, relative: Seq<char>)
    requires
        has_relative(url, relative),
    ensures
        relative == relative_path(url),
{
    reveal_strlit("?");
    assert("?"@ =~= seq!['?']);
}

/// The address of a host and a port.
proof fn lemma_address(host: Seq<char>, port: u16)
    ensures
        address(host, port) == host + seq![':'] + decimal(port as nat),
{
    reveal_strlit(":");
    assert(":"@ =~= seq![':']);
}

/// Without an upgrade, and for anything but plain HTTP with one, a request goes to its URL's host
/// and port, in plain bytes. A URL that makes no sense, or is without a host or a port, is refused.
pub proof fn law_request_goes_to_its_url(
    route: RouteView,
    request: RequestView,
    url: UrlView,
    host: Seq<char>,
    port: u16,
    relative: Seq<char>,
    error: url::ParseError,
)
    requires
        has_relative(url, relative),
    ensures
        forwarding_to(route, request, Err(error)) == StepView::Fail(
            HttpErrorView::InvalidUrl(error),
        ),
        url.host is None ==> forwarding_to(route, request, Ok(url)) == StepView::Fail(
            HttpErrorView::InvalidRequest("No host in URL"@),
        ),
        url.host == Some(host) && !(route.upgrade && url.scheme == "http"@) && url.port is None
            ==> forwarding_to(route, request, Ok(url)) == StepView::Fail(
            HttpErrorView::InvalidRequest("No port in URL"@),
        ),
        url.host == Some(host) && !(route.upgrade && url.scheme == "http"@) && url.port == Some(
            port,
        ) ==> forwarding_to(route, request, Ok(url)) == StepView::Connect(
            host + seq![':'] + decimal(port as nat),
            OnwardView::Forward(outgoing(request, relative), None),
            AskedView { method: request.method, path: request.path },
        ),
        after_connect(OnwardView::Forward(outgoing(request, relative), None)) == StepView::Send(
            outgoing(request, relative),
        ),
{
    lemma_relative(url, relative);
    lemma_address(host, port);
}

/// With an upgrade, a request for a plain HTTP URL never goes on without TLS, whatever its method,
/// headers and body. Where the URL with `https://` in place of the first `http://` makes sense, the
/// request goes to the same host, at that URL's port or else 443, over TLS under that host's name.
pub proof fn law_upgrade_goes_over_tls(
    route: RouteView,
    request: RequestView,
    url: UrlView,
    host: Seq<char>,
    relative: Seq<char>,
)
    requires
        route.upgrade,
        url.scheme == "http"@,
        url.host == Some(host),
        has_relative(url, relative),
    ensures
        ({
            let step = forwarding_to(route, request, Ok(url));
            let secured = url_parsed(
                replace_first(target_of(route.base, request.path), "http://"@, "https://"@),
            );
            &&& step matches StepView::Connect(_, onward, _) ==> onward == OnwardView::Forward(
                outgoing(request, relative),
                Some(host),
            )
            &&& secured matches Err(error) ==> step == StepView::Fail(
                HttpErrorView::InvalidUrl(error),
            )
            &&& secured matches Ok(tls) ==> step == StepView::Connect(
                host + seq![':'] + decimal(
                    if tls.port is Some {
                        tls.port->0 as nat
                    } else {
                        443
                    },
                ),
                OnwardView::Forward(outgoing(request, relative), Some(host)),
                AskedView { method: request.method, path: request.path },
            )
            &&& after_connect(OnwardView::Forward(outgoing(request, relative), Some(host)))
                == match tls_name(host) {
                Ok(name) => StepView::Secure(name, outgoing(request, relative)),
                Err(error) => StepView::Fail(HttpErrorView::InvalidDnsName(error)),
            }
        }),
{
    lemma_relative(url, relative);
    lemma_address(host, 443);
    let secured = url_parsed(
        replace_first(target_of(route.base, request.path), "http://"@, "https://"@),
    );
    if let Ok(tls) = secured {
        if let Some(port) = tls.port {
            lemma_address(host, port);
        }
    }
}

/// How bytes go on over TLS depends on the host and on what became of reading the URL over TLS.
pub proof fn law_securing(
    words: AskedView,
    host: Seq<char>,
    data: Seq<u8>,
    url: UrlView,
    port: u16,
    error: url::ParseError,
)
    ensures
        securing(words, host, data, Err(error)) == StepView::Fail(HttpErrorView::InvalidUrl(error)),
        url.port == Some(port) ==> securing(words, host, data, Ok(url)) == StepView::Connect(
            host + seq![':'] + decimal(port as nat),
            OnwardView::Forward(data, Some(host)),
            words,
        ),
        url.port is None ==> securing(words, host, data, Ok(url)) == StepView::Connect(
            host + seq![':'] + decimal(443),
            OnwardView::Forward(data, Some(host)),
            words,
        ),
{
    lemma_address(host, port);
    lemma_address(host, 443);
}

/// A host that TLS can name is asked for under that name, with these very bytes; any other is
/// refused.
pub proof fn law_naming(
    name: rustls::pki_types::ServerName<'static>,
    error: rustls::pki_types::InvalidDnsNameError,
    data: Seq<u8>,
)
    ensures
        after_naming(Ok(name), data) == StepView::Secure(name, data),
        after_naming(Err(error), data) == StepView::Fail(HttpErrorView::InvalidDnsName(error)),
{
}

/// The URL over TLS of a URL that begins with `http://`.
pub proof fn law_https_takes_the_place_of_http(rest: Seq<char>)
    ensures
        replace_first("http://"@ + rest, "http://"@, "https://"@) == "https://"@ + rest,
{
    let none = Seq::<char>::empty();
    law_first_occurrence_is_replaced(none, "http://"@, rest, "https://"@);
    assert(none + "http://"@ + rest =~= "http://"@ + rest);
    assert(none + "https://"@ + rest =~= "https://"@ + rest);
}

/// A path that begins with a slash comes behind the base path, with or without a slash at the end
/// of that; every other path, and every path where there is no base path, stands for itself.
pub proof fn law_what_a_path_stands_for(base: Seq<char>, path: Seq<char>)
    ensures
        base.len() == 0 || base.last() != '/' ==> target_of(Some(base), seq!['/'] + path) == base
            + seq!['/'] + path,
        target_of(Some(base + seq!['/']), seq!['/'] + path) == base + seq!['/'] + path,
        path.len() == 0 || path[0] != '/' ==> target_of(Some(base), path) == path,
        target_of(None, path) == path,
{
    let full = seq!['/'] + path;
    assert((base + seq!['/']).drop_last() =~= base);
    assert(base + full =~= base + seq!['/'] + path);
}

/// The answer that a client has to log in.
pub open spec fn told_to_log_in(step: StepView, error: HttpErrorView) -> bool {
    step == StepView::Refuse(
        encode_utf8(
            "HTTP/1.1 407 Proxy Authentication Required\r\nProxy-Authenticate: Basic realm=\"Proxy\"\r\nContent-Length: 0\r\n\r\n"@,
        ),
        error,
    )
}

/// Where somebody has an account, a request without a login is answered that the client has to log
/// in: one without a `proxy-authorization` header, and one of which the first such header does not
/// begin with `Basic`.
pub proof fn law_no_login(
    accounts: Map<Seq<char>, Seq<char>>,
    route: RouteView,
    request: RequestView,
    i: int,
)
    requires
        !accounts.is_empty(),
        (forall|j: int|
            0 <= j < request.headers.len() ==> lowercase((#[trigger] request.headers[j]).name)
                != "proxy-authorization"@) || (0 <= i < request.headers.len() && lowercase(
            request.headers[i].name,
        ) == "proxy-authorization"@ && (forall|j: int|
            0 <= j < i ==> lowercase((#[trigger] request.headers[j]).name)
                != "proxy-authorization"@) && forall|token: Seq<char>|
            request.headers[i].value != #[trigger] ("Basic "@ + token)),
    ensures
        told_to_log_in(meeting(accounts, route, request), HttpErrorView::ProxyAuthRequired),
        told_to_log_in(admission(accounts, route, request), HttpErrorView::ProxyAuthRequired),
        credentials(request.headers) == CredentialsView::Absent,
{
    lemma_header_name();
    law_first_header_of_a_name_is_found(request.headers, "proxy-authorization"@, i);
    if let Some(value) = find_header(request.headers, "proxy-authorization"@) {
        law_prefix_comes_off("Basic "@, Seq::empty(), value);
    }
}

proof fn lemma_header_name()
    ensures
        lowercase("proxy-authorization"@) == "proxy-authorization"@,
{
    reveal_strlit("proxy-authorization");
    assert(lowercase("proxy-authorization"@) =~= "proxy-authorization"@);
}

/// Where somebody has an account, the first `proxy-authorization` header decides. Its token has to
/// be base64 of UTF-8; the name ends at the first colon, and all behind that is the password. A name
/// with an account waits for the check of that password against that account's hash, and any other
/// is answered that the client has to log in.
pub proof fn law_login_decides(
    accounts: Map<Seq<char>, Seq<char>>,
    route: RouteView,
    request: RequestView,
    i: int,
    token: Seq<char>,
    user: Seq<char>,
    password: Seq<char>,
    bytes: Seq<u8>,
)
    requires
        !accounts.is_empty(),
        0 <= i < request.headers.len(),
        lowercase(request.headers[i].name) == "proxy-authorization"@,
        forall|j: int|
            0 <= j < i ==> lowercase((#[trigger] request.headers[j]).name)
                != "proxy-authorization"@,
        request.headers[i].value == "Basic "@ + token,
        !user.contains(':'),
    ensures
        ({
            let step = meeting(accounts, route, request);
            let decoded = base64_decoded(token);
            let text = user + seq![':'] + password;
            &&& step == admission(accounts, route, request)
            &&& decoded matches Err(error) ==> step == StepView::Fail(
                HttpErrorView::InvalidBase64(error),
            )
            &&& decoded == Ok::<Seq<u8>, base64::DecodeError>(bytes) && !valid_utf8(bytes) ==> step
                == StepView::Fail(HttpErrorView::InvalidUtf8(utf8_error(bytes)))
            &&& decoded == Ok::<Seq<u8>, base64::DecodeError>(encode_utf8(user)) ==> told_to_log_in(
                step,
                HttpErrorView::ProxyAuthRequired,
            )
            &&& decoded == Ok::<Seq<u8>, base64::DecodeError>(encode_utf8(text))
                && accounts.contains_key(user) ==> step == StepView::Check(
                request,
                password,
                accounts[user],
            )
            &&& decoded == Ok::<Seq<u8>, base64::DecodeError>(encode_utf8(text))
                && !accounts.contains_key(user) ==> told_to_log_in(
                step,
                HttpErrorView::ProxyAuthRequired,
            )
        }),
{
    lemma_header_name();
    law_first_header_of_a_name_is_found(request.headers, "proxy-authorization"@, i);
    law_prefix_comes_off("Basic "@, token, Seq::empty());
    law_name_ends_at_the_first_colon(user, password, bytes);
}

/// Decoded credentials: the name ends at the first colon, and all behind it is the password.
pub proof fn law_name_ends_at_the_first_colon(
    user: Seq<char>,
    password: Seq<char>,
    bytes: Seq<u8>,
)
    requires
        !user.contains(':'),
    ensures
        login_in(encode_utf8(user + seq![':'] + password)) == CredentialsView::Login(
            user,
            password,
        ),
        login_in(encode_utf8(user)) == CredentialsView::Absent,
        !valid_utf8(bytes) ==> login_in(bytes) == CredentialsView::BadUtf8(utf8_error(bytes)),
{
    let text = user + seq![':'] + password;
    vstd::utf8::encode_utf8_valid_utf8(text);
    vstd::utf8::encode_utf8_decode_utf8(text);
    vstd::utf8::encode_utf8_valid_utf8(user);
    vstd::utf8::encode_utf8_decode_utf8(user);
    law_text_is_cut_at_the_first(user, ':', password);
}

/// A check that says yes lets the request be served as one that needs no login is; one that says no,
/// or nothing, is answered that the client has to log in, and the error says why.
pub proof fn law_check_decides(route: RouteView, request: RequestView, error: AuthErrorView)
    ensures
        after_check(route, request, Ok(true)) == meeting(Map::empty(), route, request),
        told_to_log_in(after_check(route, request, Ok(false)), HttpErrorView::ProxyAuthRequired),
        told_to_log_in(
            after_check(route, request, Err(error)),
            HttpErrorView::AuthenticationFailed(error),
        ),
{
}

/// What comes of reading decides: more is read until the request is whole, an error ends it, and a
/// whole request is met.
pub proof fn law_whole_request_is_met(
    accounts: Map<Seq<char>, Seq<char>>,
    route: RouteView,
    stage: StageView,
    error: HttpErrorView,
    request: RequestView,
)
    ensures
        after_reading(accounts, route, ReadingView::More(stage)) == StepView::Read(stage),
        after_reading(accounts, route, ReadingView::Failed(error)) == StepView::Fail(error),
        after_reading(accounts, route, ReadingView::Complete(request)) == meeting(
            accounts,
            route,
            request,
        ),
{
}

/// A proxy routes by its own settings.
pub proof fn law_route_is_the_proxys(proxy: HttpProxy)
    ensures
        proxy.route().upgrade == proxy.upgrades(),
        proxy.base() is None ==> proxy.route().base is None,
        proxy.base() matches Some(base) ==> proxy.route().base == Some(base@),
{
}

/// A URL's view has its parts as they are.
pub proof fn law_url_view(url: TargetUrl, error: url::ParseError)
    ensures
        url_view(Err(error)) == Err::<UrlView, url::ParseError>(error),
        url_view(Ok(url)) matches Ok(view) && view.scheme == url.scheme@ && view.path == url.path@
            && view.port == url.port && (url.host matches Some(host) ==> view.host == Some(host@))
            && (url.host is None ==> view.host is None) && (url.query matches Some(query)
            ==> view.query == Some(query@)) && (url.query is None ==> view.query is None),
{
}

/// A step's view has its bytes and its error as they are.
pub proof fn law_step_view(
    data: Vec<u8>,
    name: rustls::pki_types::ServerName<'static>,
    error: HttpProxyError,
    connecting: Connecting,
)
    ensures
        HttpStep::Send(data)@ == StepView::Send(data@),
        HttpStep::Tunnel(data)@ == StepView::Tunnel(data@),
        HttpStep::Secure(name, data)@ == StepView::Secure(name, data@),
        HttpStep::Refuse(data, error)@ == StepView::Refuse(data@, error@),
        HttpStep::Fail(error)@ == StepView::Fail(error@),
        HttpStep::Connect(connecting)@ == StepView::Connect(
            connecting.target(),
            connecting.next(),
            connecting.asked(),
        ),
{
}

/// An error's view has what the error holds.
pub proof fn law_error_view(error: HttpProxyError)
    ensures
        match error {
            HttpProxyError::IoError(e) => error@ == HttpErrorView::IoError(e@),
            HttpProxyError::InvalidRequest(reason) => error@ == HttpErrorView::InvalidRequest(
                reason@,
            ),
            HttpProxyError::ProxyAuthRequired => error@ == HttpErrorView::ProxyAuthRequired,
            HttpProxyError::AuthenticationFailed(e) => error@
                == HttpErrorView::AuthenticationFailed(e@),
            HttpProxyError::UnsupportedMethod(method) => error@ == HttpErrorView::UnsupportedMethod(
                method@,
            ),
            HttpProxyError::InvalidUrl(e) => error@ == HttpErrorView::InvalidUrl(e),
            HttpProxyError::InvalidUtf8(e) => error@ == HttpErrorView::InvalidUtf8(e),
            HttpProxyError::InvalidBase64(e) => error@ == HttpErrorView::InvalidBase64(e),
            HttpProxyError::InvalidDnsName(e) => error@ == HttpErrorView::InvalidDnsName(e),
        },
{
}

} // verus!
