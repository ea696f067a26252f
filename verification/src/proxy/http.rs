//! The HTTP proxy.

use std::sync::Arc;
use std::time::Duration;

use vstd::prelude::*;
use vstd::utf8::{decode_utf8, encode_utf8, valid_utf8};

use crate::common::auth::{
    first_step, guards, passwords, verdict, AuthError, AuthErrorView, AuthManager, AuthStep,
    AuthStepView, PasswordCheck,
};
use crate::net::conn::{BufferedConnection, ConnError, ConnErrorView, ReadEvent};
use crate::proxy::request::{
    find_header, outgoing, reading, reading_turn, HeaderView, HttpRequest, Reading, ReadingView,
    RequestReader, RequestView, StageView,
};
use crate::text::number::to_decimal;
use crate::text::scan::{
    after_prefix, chars_of, replacen_once, same_text, slice_of, split_once, strip_prefix,
};
use crate::text::utf::utf8_error;

verus! {

/// `url::ParseError`, carried as it is.
#[verifier::external_type_specification]
#[verifier::external_body]
pub struct ExUrlParseError(url::ParseError);

/// `base64::DecodeError`, carried as it is.
#[verifier::external_type_specification]
#[verifier::external_body]
pub struct ExDecodeError(base64::DecodeError);

/// `rustls::pki_types::InvalidDnsNameError`, carried as it is.
#[verifier::external_type_specification]
#[verifier::external_body]
pub struct ExInvalidDnsNameError(rustls::pki_types::InvalidDnsNameError);

/// Why a request was not served.
#[derive(Debug)]
pub enum HttpProxyError {
    /// The client's bytes could not be read.
    IoError(ConnError),
    /// The request makes no sense, for this reason.
    InvalidRequest(String),
    /// The client has to log in.
    ProxyAuthRequired,
    /// The login could not be checked.
    AuthenticationFailed(AuthError),
    /// The method is not one that is served.
    UnsupportedMethod(String),
    /// The target is not a URL.
    InvalidUrl(url::ParseError),
    /// The credentials are not UTF-8.
    InvalidUtf8(std::string::FromUtf8Error),
    /// The credentials are not base64.
    InvalidBase64(base64::DecodeError),
    /// The target's name cannot be used for TLS.
    InvalidDnsName(rustls::pki_types::InvalidDnsNameError),
}

/// An [`HttpProxyError`] in views.
pub enum HttpErrorView {
    IoError(ConnErrorView),
    InvalidRequest(Seq<char>),
    ProxyAuthRequired,
    AuthenticationFailed(AuthErrorView),
    UnsupportedMethod(Seq<char>),
    InvalidUrl(url::ParseError),
    InvalidUtf8(std::string::FromUtf8Error),
    InvalidBase64(base64::DecodeError),
    InvalidDnsName(rustls::pki_types::InvalidDnsNameError),
}

impl View for HttpProxyError {
    type V = HttpErrorView;

    open spec fn view(&self) -> HttpErrorView {
        match self {
            HttpProxyError::IoError(error) => HttpErrorView::IoError(error@),
            HttpProxyError::InvalidRequest(reason) => HttpErrorView::InvalidRequest(reason@),
            HttpProxyError::ProxyAuthRequired => HttpErrorView::ProxyAuthRequired,
            HttpProxyError::AuthenticationFailed(error) => HttpErrorView::AuthenticationFailed(
                error@,
            ),
            HttpProxyError::UnsupportedMethod(method) => HttpErrorView::UnsupportedMethod(method@),
            HttpProxyError::InvalidUrl(error) => HttpErrorView::InvalidUrl(*error),
            HttpProxyError::InvalidUtf8(error) => HttpErrorView::InvalidUtf8(*error),
            HttpProxyError::InvalidBase64(error) => HttpErrorView::InvalidBase64(*error),
            HttpProxyError::InvalidDnsName(error) => HttpErrorView::InvalidDnsName(*error),
        }
    }
}

/// A URL's parts in views: scheme, host, path, query and port, the scheme's known port where the
/// URL names none.
pub struct UrlView {
    pub scheme: Seq<char>,
    pub host: Option<Seq<char>>,
    pub path: Seq<char>,
    pub query: Option<Seq<char>>,
    pub port: Option<u16>,
}

/// The parts of a URL.
pub struct TargetUrl {
    pub scheme: String,
    pub host: Option<String>,
    pub path: String,
    pub query: Option<String>,
    /// The port, the scheme's known port where the URL names none.
    pub port: Option<u16>,
}

/// The view of an optional text.
pub open spec fn text_view(text: Option<String>) -> Option<Seq<char>> {
    match text {
        Some(text) => Some(text@),
        None => None,
    }
}

impl View for TargetUrl {
    type V = UrlView;

    open spec fn view(&self) -> UrlView {
        UrlView {
            scheme: self.scheme@,
            host: text_view(self.host),
            path: self.path@,
            query: text_view(self.query),
            port: self.port,
        }
    }
}

/// The view of what became of reading a URL.
pub open spec fn url_view(url: Result<TargetUrl, url::ParseError>) -> Result<
    UrlView,
    url::ParseError,
> {
    match url {
        Ok(url) => Ok(url@),
        Err(error) => Err(error),
    }
}

/// What `url::Url::parse` makes of a text: the parts of a URL, or the reason why it is none.
pub uninterp spec fn url_parsed(text: Seq<char>) -> Result<UrlView, url::ParseError>;

/// Calls `url::Url::parse`, and takes the result apart with `scheme`, `host_str`, `path`, `query`
/// and `port_or_known_default`. All of it depends on the text alone, and is called `url_parsed`.
#[verifier::external_body]
fn parse_url(text: &str) -> (r: Result<TargetUrl, url::ParseError>)
    ensures
        url_view(r) == url_parsed(text@),
{
    let url = url::Url::parse(text)?;
    Ok(TargetUrl {
        scheme: url.scheme().to_string(),
        host: url.host_str().map(str::to_string),
        path: url.path().to_string(),
        query: url.query().map(str::to_string),
        port: url.port_or_known_default(),
    })
}

/// What base64's standard engine decodes a text to, or the reason why it does not.
pub uninterp spec fn base64_decoded(text: Seq<char>) -> Result<Seq<u8>, base64::DecodeError>;

/// Calls `base64::Engine::decode` of `base64::engine::general_purpose::STANDARD`. What it gives
/// depends on the text alone, and is called `base64_decoded`.
#[verifier::external_body]
fn decode_base64(text: &str) -> (r: Result<Vec<u8>, base64::DecodeError>)
    ensures
        match r {
            Ok(bytes) => base64_decoded(text@) == Ok::<Seq<u8>, base64::DecodeError>(bytes@),
            Err(error) => base64_decoded(text@) == Err::<Seq<u8>, base64::DecodeError>(error),
        },
{
    base64::Engine::decode(&base64::engine::general_purpose::STANDARD, text)
}

/// `rustls::pki_types::ServerName`, carried as it is.
#[verifier::external_type_specification]
#[verifier::external_body]
pub struct ExServerName<'a>(rustls::pki_types::ServerName<'a>);

/// The name under which TLS knows a host, or the reason why it has none.
pub uninterp spec fn tls_name(host: Seq<char>) -> Result<
    rustls::pki_types::ServerName<'static>,
    rustls::pki_types::InvalidDnsNameError,
>;

/// Calls `rustls::pki_types::ServerName::try_from`. It reads the host as a DNS name or an IP
/// address; what it gives depends on the host alone, and is called `tls_name`.
#[verifier::external_body]
fn server_name(host: String) -> (r: Result<
    rustls::pki_types::ServerName<'static>,
    rustls::pki_types::InvalidDnsNameError,
>)
    ensures
        r == tls_name(host@),
{
    rustls::pki_types::ServerName::try_from(host)
}

/// The answer to a client that has connected to its target.
pub open spec fn connect_ok() -> Seq<u8> {
    encode_utf8("HTTP/1.1 200 Connection Established\r\n\r\n"@)
}

/// The answer to a client that has to log in.
pub open spec fn proxy_auth_required() -> Seq<u8> {
    encode_utf8(
        "HTTP/1.1 407 Proxy Authentication Required\r\nProxy-Authenticate: Basic realm=\"Proxy\"\r\nContent-Length: 0\r\n\r\n"@,
    )
}

/// What a request says of who sent it.
pub enum CredentialsView {
    /// Nothing that can be used.
    Absent,
    BadBase64(base64::DecodeError),
    BadUtf8(std::string::FromUtf8Error),
    /// A name and a password.
    Login(Seq<char>, Seq<char>),
}

/// The name and the password in decoded credentials, which a colon parts.
pub open spec fn login_in(bytes: Seq<u8>) -> CredentialsView {
    if !valid_utf8(bytes) {
        CredentialsView::BadUtf8(utf8_error(bytes))
    } else {
        match crate::text::scan::split_at_char(decode_utf8(bytes), ':') {
            None => CredentialsView::Absent,
            Some((user, password)) => CredentialsView::Login(user, password),
        }
    }
}

/// Who sent a request with these headers.
pub open spec fn credentials(headers: Seq<HeaderView>) -> CredentialsView {
    match find_header(headers, crate::text::case::lowercase("proxy-authorization"@)) {
        None => CredentialsView::Absent,
        Some(value) => match after_prefix(value, "Basic "@) {
            None => CredentialsView::Absent,
            Some(encoded) => match base64_decoded(encoded) {
                Err(error) => CredentialsView::BadBase64(error),
                Ok(bytes) => login_in(bytes),
            },
        },
    }
}

/// How requests find their targets.
pub struct RouteView {
    /// Whether targets that are asked for by plain HTTP are reached over TLS.
    pub upgrade: bool,
    /// The base path for relative paths.
    pub base: Option<Seq<char>>,
}

/// What the client asked for, in its own words.
pub struct AskedView {
    pub method: Seq<char>,
    pub path: Seq<char>,
}

/// What a request asks for.
pub open spec fn asked(request: RequestView) -> AskedView {
    AskedView { method: request.method, path: request.path }
}

/// A path that leaves open which server it is on.
pub open spec fn is_relative(path: Seq<char>) -> bool {
    path.len() > 0 && path[0] == '/'
}

/// A base path without a slash at its end.
pub open spec fn without_slash(base: Seq<char>) -> Seq<char> {
    if base.len() > 0 && base.last() == '/' {
        base.drop_last()
    } else {
        base
    }
}

/// The URL that a path stands for: a relative path comes behind the base path, where there is one.
pub open spec fn target_of(base: Option<Seq<char>>, path: Seq<char>) -> Seq<char> {
    match base {
        Some(base) => if is_relative(path) {
            without_slash(base) + path
        } else {
            path
        },
        None => path,
    }
}

/// What follows once the target is connected.
pub enum OnwardView {
    /// The client is told, and then both sides talk to each other.
    Tunnel,
    /// The request is sent on in these bytes, over TLS to this host where there is one.
    Forward(Seq<u8>, Option<Seq<char>>),
}

/// A step of serving a client, in views.
pub enum StepView {
    /// Read from the client.
    Read(StageView),
    /// Check the password that came with the request against a hash.
    Check(RequestView, Seq<char>, Seq<char>),
    /// Answer the client with these bytes, and then fail.
    Refuse(Seq<u8>, HttpErrorView),
    /// Connect to the target at this address.
    Connect(Seq<char>, OnwardView, AskedView),
    /// Answer the client with these bytes, and then let both sides talk to each other.
    Tunnel(Seq<u8>),
    /// Begin TLS with the target under this name, and then send on these bytes.
    Secure(rustls::pki_types::ServerName<'static>, Seq<u8>),
    /// Send these bytes to the target, and then its answer to the client.
    Send(Seq<u8>),
    /// Give up.
    Fail(HttpErrorView),
}

/// The client is told to log in.
pub open spec fn refused(error: HttpErrorView) -> StepView {
    StepView::Refuse(proxy_auth_required(), error)
}

/// The methods with which a request is sent on.
pub open spec fn is_forwarded(method: Seq<char>) -> bool {
    method == "GET"@ || method == "POST"@ || method == "PUT"@ || method == "DELETE"@ || method
        == "HEAD"@ || method == "OPTIONS"@ || method == "PATCH"@
}

/// The path by which the target knows what a URL asks for.
pub open spec fn relative_path(url: UrlView) -> Seq<char> {
    match url.query {
        None => url.path,
        Some(query) => url.path + "?"@ + query,
    }
}

/// A host and a port, as an address.
pub open spec fn address(host: Seq<char>, port: u16) -> Seq<char> {
    host + ":"@ + crate::text::number::decimal(port as nat)
}

/// The same URL over TLS.
pub open spec fn over_tls(path: Seq<char>) -> Seq<char> {
    crate::text::scan::replace_first(path, "http://"@, "https://"@)
}

/// How `data` is sent on to `host` over TLS, where `url` is what was asked for over TLS.
pub open spec fn securing(
    asked: AskedView,
    host: Seq<char>,
    data: Seq<u8>,
    url: Result<UrlView, url::ParseError>,
) -> StepView {
    match url {
        Err(error) => StepView::Fail(HttpErrorView::InvalidUrl(error)),
        Ok(url) => StepView::Connect(
            address(
                host,
                match url.port {
                    Some(port) => port,
                    None => 443,
                },
            ),
            OnwardView::Forward(data, Some(host)),
            asked,
        ),
    }
}

/// How a request is sent on to `url`. With `upgrade`, a target that is asked for by plain HTTP is
/// reached over TLS.
pub open spec fn forwarding_to(
    route: RouteView,
    request: RequestView,
    url: Result<UrlView, url::ParseError>,
) -> StepView {
    match url {
        Err(error) => StepView::Fail(HttpErrorView::InvalidUrl(error)),
        Ok(url) => match url.host {
            None => StepView::Fail(HttpErrorView::InvalidRequest("No host in URL"@)),
            Some(host) => {
                let data = outgoing(request, relative_path(url));
                if route.upgrade && url.scheme == "http"@ {
                    securing(
                        asked(request),
                        host,
                        data,
                        url_parsed(over_tls(target_of(route.base, request.path))),
                    )
                } else {
                    match url.port {
                        None => StepView::Fail(HttpErrorView::InvalidRequest("No port in URL"@)),
                        Some(port) => StepView::Connect(
                            address(host, port),
                            OnwardView::Forward(data, None),
                            asked(request),
                        ),
                    }
                }
            },
        },
    }
}

/// How a request is sent on to the URL that its path stands for.
pub open spec fn forwarding(route: RouteView, request: RequestView) -> StepView {
    forwarding_to(route, request, url_parsed(target_of(route.base, request.path)))
}

/// How a request is served that may be served.
pub open spec fn serving(route: RouteView, request: RequestView) -> StepView {
    if request.method == "CONNECT"@ {
        StepView::Connect(request.path, OnwardView::Tunnel, asked(request))
    } else if is_forwarded(request.method) {
        forwarding(route, request)
    } else {
        StepView::Fail(HttpErrorView::UnsupportedMethod(request.method))
    }
}

/// What follows a login with `step`.
pub open spec fn after_begin(route: RouteView, request: RequestView, step: AuthStepView) -> StepView {
    match step {
        AuthStepView::Decided(true) => serving(route, request),
        AuthStepView::Decided(false) => refused(HttpErrorView::ProxyAuthRequired),
        AuthStepView::Check(given, expected) => StepView::Check(request, given, expected),
    }
}

/// How a request is met that has to come with a login.
pub open spec fn admission(
    accounts: Map<Seq<char>, Seq<char>>,
    route: RouteView,
    request: RequestView,
) -> StepView {
    match credentials(request.headers) {
        CredentialsView::Absent => refused(HttpErrorView::ProxyAuthRequired),
        CredentialsView::BadBase64(error) => StepView::Fail(HttpErrorView::InvalidBase64(error)),
        CredentialsView::BadUtf8(error) => StepView::Fail(HttpErrorView::InvalidUtf8(error)),
        CredentialsView::Login(user, password) => after_begin(
            route,
            request,
            first_step(accounts, user, password),
        ),
    }
}

/// How a request is met where `accounts` says who may log in.
pub open spec fn meeting(
    accounts: Map<Seq<char>, Seq<char>>,
    route: RouteView,
    request: RequestView,
) -> StepView {
    if accounts.is_empty() {
        serving(route, request)
    } else {
        admission(accounts, route, request)
    }
}

/// What follows a password check, of which the outcome is an answer or an error.
pub open spec fn after_check(
    route: RouteView,
    request: RequestView,
    outcome: Result<bool, AuthErrorView>,
) -> StepView {
    match outcome {
        Ok(true) => serving(route, request),
        Ok(false) => refused(HttpErrorView::ProxyAuthRequired),
        Err(error) => refused(HttpErrorView::AuthenticationFailed(error)),
    }
}

/// What follows a turn of reading.
pub open spec fn after_reading(
    accounts: Map<Seq<char>, Seq<char>>,
    route: RouteView,
    turn: ReadingView,
) -> StepView {
    match turn {
        ReadingView::More(stage) => StepView::Read(stage),
        ReadingView::Failed(error) => StepView::Fail(error),
        ReadingView::Complete(request) => meeting(accounts, route, request),
    }
}

/// What follows once the target is connected.
pub open spec fn after_connect(onward: OnwardView) -> StepView {
    match onward {
        OnwardView::Tunnel => StepView::Tunnel(connect_ok()),
        OnwardView::Forward(data, None) => StepView::Send(data),
        OnwardView::Forward(data, Some(host)) => after_naming(tls_name(host), data),
    }
}

/// What follows once it is known under which name TLS knows the target.
pub open spec fn after_naming(
    name: Result<rustls::pki_types::ServerName<'static>, rustls::pki_types::InvalidDnsNameError>,
    data: Seq<u8>,
) -> StepView {
    match name {
        Err(error) => StepView::Fail(HttpErrorView::InvalidDnsName(error)),
        Ok(name) => StepView::Secure(name, data),
    }
}

/// A request that waits for a password check.
pub struct Checking {
    request: HttpRequest,
    check: PasswordCheck,
}

impl Checking {
    /// The request that waits.
    pub closed spec fn waiting(&self) -> RequestView {
        self.request@
    }

    /// The password that came with the request.
    pub closed spec fn given(&self) -> Seq<char> {
        self.check.given()
    }

    /// The hash that it has to fit.
    pub closed spec fn expected(&self) -> Seq<char> {
        self.check.expected()
    }

    /// The check to make.
    pub fn check(&self) -> (r: PasswordCheck)
        ensures
            r.given() == self.given(),
            r.expected() == self.expected(),
    {
        self.check.copy()
    }
}

/// A target that is to be connected.
pub struct Connecting {
    address: String,
    onward: Onward,
    method: String,
    path: String,
}

enum Onward {
    Tunnel,
    Forward(Vec<u8>, Option<String>),
}

impl View for Onward {
    type V = OnwardView;

    closed spec fn view(&self) -> OnwardView {
        match self {
            Onward::Tunnel => OnwardView::Tunnel,
            Onward::Forward(data, host) => OnwardView::Forward(data@, text_view(*host)),
        }
    }
}

impl Connecting {
    /// The target's address.
    pub closed spec fn target(&self) -> Seq<char> {
        self.address@
    }

    /// What follows.
    pub closed spec fn next(&self) -> OnwardView {
        self.onward@
    }

    /// What the client asked for.
    pub closed spec fn asked(&self) -> AskedView {
        AskedView { method: self.method@, path: self.path@ }
    }

    /// The method that the client asked with.
    pub fn method(&self) -> (r: &str)
        ensures
            r@ == self.asked().method,
    {
        self.method.as_str()
    }

    /// The path that the client asked for, as the client wrote it.
    pub fn path(&self) -> (r: &str)
        ensures
            r@ == self.asked().path,
    {
        self.path.as_str()
    }

    /// The target's address.
    pub fn address(&self) -> (r: &str)
        ensures
            r@ == self.target(),
    {
        self.address.as_str()
    }

    /// The target is connected.
    pub fn connected(self) -> (step: HttpStep)
        ensures
            step@ == after_connect(self.next()),
    {
        match self.onward {
            Onward::Tunnel => HttpStep::Tunnel(
                "HTTP/1.1 200 Connection Established\r\n\r\n".as_bytes_vec(),
            ),
            Onward::Forward(data, None) => HttpStep::Send(data),
            Onward::Forward(data, Some(host)) => named(server_name(host), data),
        }
    }
}

/// Sends `data` on over TLS, under the name by which TLS knows the target.
pub fn named(
    name: Result<rustls::pki_types::ServerName<'static>, rustls::pki_types::InvalidDnsNameError>,
    data: Vec<u8>,
) -> (step: HttpStep)
    ensures
        step@ == after_naming(name, data@),
{
    match name {
        Ok(name) => HttpStep::Secure(name, data),
        Err(error) => HttpStep::Fail(HttpProxyError::InvalidDnsName(error)),
    }
}

/// A step of serving a client. Whoever owns the streams takes it, and says what came of it.
pub enum HttpStep {
    /// Read from the client, and go on with [`HttpProxy::received`].
    Read(RequestReader),
    /// Make the check, and go on with [`HttpProxy::checked`].
    Check(Checking),
    /// Write these bytes to the client, and then fail with this error.
    Refuse(Vec<u8>, HttpProxyError),
    /// Connect to the target, and go on with [`Connecting::connected`].
    Connect(Connecting),
    /// Write these bytes to the client, and then copy in both directions until both sides end.
    Tunnel(Vec<u8>),
    /// Begin TLS with the target under this name, and then go on as with [`HttpStep::Send`] and
    /// these bytes.
    Secure(rustls::pki_types::ServerName<'static>, Vec<u8>),
    /// Write these bytes to the target, copy what it answers to the client and shut the client's
    /// side down. Nothing more of the client goes to the target.
    Send(Vec<u8>),
    /// Fail with this error.
    Fail(HttpProxyError),
}

impl View for HttpStep {
    type V = StepView;

    open spec fn view(&self) -> StepView {
        match self {
            HttpStep::Read(reader) => StepView::Read(reader@),
            HttpStep::Check(checking) => StepView::Check(
                checking.waiting(),
                checking.given(),
                checking.expected(),
            ),
            HttpStep::Refuse(reply, error) => StepView::Refuse(reply@, error@),
            HttpStep::Connect(connecting) => StepView::Connect(
                connecting.target(),
                connecting.next(),
                connecting.asked(),
            ),
            HttpStep::Tunnel(reply) => StepView::Tunnel(reply@),
            HttpStep::Secure(name, data) => StepView::Secure(*name, data@),
            HttpStep::Send(data) => StepView::Send(data@),
            HttpStep::Fail(error) => StepView::Fail(error@),
        }
    }
}

/// Goes on with a connection to `address`, for `request`.
fn connect(request: &HttpRequest, address: String, onward: Onward) -> (step: HttpStep)
    ensures
        step matches HttpStep::Connect(connecting) && connecting.target() == address@
            && connecting.next() == onward@ && connecting.asked() == asked(request@),
{
    HttpStep::Connect(
        Connecting {
            address,
            onward,
            method: request.method().to_owned(),
            path: request.path().to_owned(),
        },
    )
}

fn refuse(error: HttpProxyError) -> (step: HttpStep)
    ensures
        step@ == refused(error@),
{
    HttpStep::Refuse(
        "HTTP/1.1 407 Proxy Authentication Required\r\nProxy-Authenticate: Basic realm=\"Proxy\"\r\nContent-Length: 0\r\n\r\n".as_bytes_vec(),
        error,
    )
}

fn invalid(reason: &str) -> (step: HttpStep)
    ensures
        step@ == StepView::Fail(HttpErrorView::InvalidRequest(reason@)),
{
    HttpStep::Fail(HttpProxyError::InvalidRequest(reason.to_owned()))
}

/// A host and a port, as an address.
fn address_of(host: &str, port: u16) -> (r: String)
    ensures
        r@ == address(host@, port),
{
    let mut r = host.to_owned();
    r.append(":");
    let digits = to_decimal(port as u64);
    r.append(digits.as_str());
    r
}

/// The name and the password in decoded credentials.
pub fn read_login(bytes: Vec<u8>) -> (r: Result<Option<(String, String)>, HttpProxyError>)
    ensures
        match login_in(bytes@) {
            CredentialsView::Login(user, password) => r matches Ok(Some(login)) && login.0@ == user
                && login.1@ == password,
            CredentialsView::BadUtf8(error) => r matches Err(e) && e@
                == HttpErrorView::InvalidUtf8(error),
            _ => r matches Ok(None),
        },
{
    match String::from_utf8(bytes) {
        Err(error) => Err(HttpProxyError::InvalidUtf8(error)),
        Ok(text) => Ok(split_once(text.as_str(), ':')),
    }
}

/// Who sent a request.
fn read_credentials(request: &HttpRequest) -> (r: Result<
    Option<(String, String)>,
    HttpProxyError,
>)
    ensures
        match credentials(request@.headers) {
            CredentialsView::Login(user, password) => r matches Ok(Some(login)) && login.0@ == user
                && login.1@ == password,
            CredentialsView::Absent => r matches Ok(None),
            CredentialsView::BadBase64(error) => r matches Err(e) && e@
                == HttpErrorView::InvalidBase64(error),
            CredentialsView::BadUtf8(error) => r matches Err(e) && e@
                == HttpErrorView::InvalidUtf8(error),
        },
{
    match request.get_header("proxy-authorization") {
        None => Ok(None),
        Some(value) => match strip_prefix(value, "Basic ") {
            None => Ok(None),
            Some(encoded) => match decode_base64(encoded.as_str()) {
                Err(error) => Err(HttpProxyError::InvalidBase64(error)),
                Ok(bytes) => read_login(bytes),
            },
        },
    }
}

/// The HTTP proxy.
pub struct HttpProxy {
    auth_manager: Arc<AuthManager>,
    buffer_size: usize,
    connect_timeout: Duration,
    base_path: Option<Arc<String>>,
    upgrade: bool,
}

impl HttpProxy {
    /// The password hash of each user.
    pub closed spec fn accounts(&self) -> Map<Seq<char>, Seq<char>> {
        self.auth_manager@
    }

    /// How many bytes one read asks for at most.
    pub closed spec fn read_size(&self) -> usize {
        self.buffer_size
    }

    /// How long connecting to a target may take.
    pub closed spec fn patience(&self) -> Duration {
        self.connect_timeout
    }

    /// The base path for relative paths.
    pub closed spec fn base(&self) -> Option<Arc<String>> {
        self.base_path
    }

    /// Whether targets that are asked for by plain HTTP are reached over TLS.
    pub closed spec fn upgrades(&self) -> bool {
        self.upgrade
    }

    /// How requests find their targets.
    pub open spec fn route(&self) -> RouteView {
        RouteView {
            upgrade: self.upgrades(),
            base: match self.base() {
                Some(base) => Some(base@),
                None => None,
            },
        }
    }

    /// A proxy for the accounts of `auth_manager`, which reaches plain HTTP targets as asked.
    pub fn new(auth_manager: Arc<AuthManager>, buffer_size: usize, connect_timeout: Duration) -> (r:
        Self)
        ensures
            r.accounts() == auth_manager@,
            r.read_size() == buffer_size,
            r.patience() == connect_timeout,
            r.base() is None,
            !r.upgrades(),
    {
        HttpProxy { auth_manager, buffer_size, connect_timeout, base_path: None, upgrade: false }
    }

    /// The same with a base path, behind which requests with relative paths find their targets.
    pub fn new_with_base_path(
        auth_manager: Arc<AuthManager>,
        buffer_size: usize,
        connect_timeout: Duration,
        base_path: Arc<String>,
    ) -> (r: Self)
        ensures
            r.accounts() == auth_manager@,
            r.read_size() == buffer_size,
            r.patience() == connect_timeout,
            r.base() == Some(base_path),
            !r.upgrades(),
    {
        HttpProxy {
            auth_manager,
            buffer_size,
            connect_timeout,
            base_path: Some(base_path),
            upgrade: false,
        }
    }

    /// Says whether targets that are asked for by plain HTTP are reached over TLS.
    pub fn set_upgrade(&mut self, upgrade: bool)
        ensures
            final(self).upgrades() == upgrade,
            final(self).accounts() == old(self).accounts(),
            final(self).read_size() == old(self).read_size(),
            final(self).patience() == old(self).patience(),
            final(self).base() == old(self).base(),
    {
        self.upgrade = upgrade;
    }

    /// How many bytes one read asks for at most.
    pub fn buffer_size(&self) -> (n: usize)
        ensures
            n == self.read_size(),
    {
        self.buffer_size
    }

    /// How long connecting to a target may take.
    pub fn connect_timeout(&self) -> (d: Duration)
        ensures
            d == self.patience(),
    {
        self.connect_timeout
    }

    /// The base path for relative paths.
    pub fn base_path(&self) -> (r: Option<&str>)
        ensures
            match (r, self.base()) {
                (Some(path), Some(base)) => path@ == base@,
                (None, None) => true,
                _ => false,
            },
    {
        match &self.base_path {
            Some(path) => Some(path.as_str()),
            None => None,
        }
    }

    /// Begins to serve a client with what is buffered of its request.
    pub fn handle_connection<S>(&self, conn: &mut BufferedConnection<S>) -> (step: HttpStep)
        ensures
            ({
                let (turn, rest) = reading(StageView::Line, old(conn)@);
                step@ == after_reading(self.accounts(), self.route(), turn) && final(conn)@
                    == rest
            }),
            final(conn).same_link(old(conn)),
    {
        assert(old(conn)@ + Seq::<u8>::empty() =~= old(conn)@);
        self.go_on(RequestReader::new(), conn, ReadEvent::Begin)
    }

    /// Goes on with what a read from the client delivered; nothing where the client has ended.
    pub fn received<S>(
        &self,
        reader: RequestReader,
        conn: &mut BufferedConnection<S>,
        data: &[u8],
    ) -> (step: HttpStep)
        ensures
            ({
                let (turn, rest) = reading_turn(reader@, old(conn)@ + data@, data@.len() == 0);
                step@ == after_reading(self.accounts(), self.route(), turn) && final(conn)@
                    == rest
            }),
            final(conn).same_link(old(conn)),
    {
        self.go_on(reader, conn, ReadEvent::Received(data))
    }

    fn go_on<S>(
        &self,
        reader: RequestReader,
        conn: &mut BufferedConnection<S>,
        event: ReadEvent<'_>,
    ) -> (step: HttpStep)
        ensures
            ({
                let (turn, rest) = reading_turn(
                    reader@,
                    old(conn)@ + event.bytes(),
                    event.is_end(),
                );
                step@ == after_reading(self.accounts(), self.route(), turn) && final(conn)@
                    == rest
            }),
            final(conn).same_link(old(conn)),
    {
        match reader.parse_request(conn, event) {
            Reading::More(reader) => HttpStep::Read(reader),
            Reading::Done(Err(error)) => HttpStep::Fail(error),
            Reading::Done(Ok(request)) => if self.auth_manager.has_users() {
                self.authenticate(request)
            } else {
                self.serve(request)
            },
        }
    }

    /// Meets a request that has to come with a login.
    pub fn authenticate(&self, request: HttpRequest) -> (step: HttpStep)
        ensures
            step@ == admission(self.accounts(), self.route(), request@),
    {
        match read_credentials(&request) {
            Err(error) => HttpStep::Fail(error),
            Ok(None) => refuse(HttpProxyError::ProxyAuthRequired),
            Ok(Some((username, password))) => match self.auth_manager.begin(
                username.as_str(),
                password.as_str(),
            ) {
                AuthStep::Decided(true) => self.serve(request),
                AuthStep::Decided(false) => refuse(HttpProxyError::ProxyAuthRequired),
                AuthStep::Check(check) => HttpStep::Check(Checking { request, check }),
            },
        }
    }

    /// Goes on with what came of a password check; `None` where the check was lost.
    pub fn checked(
        &self,
        checking: Checking,
        outcome: Option<Result<bool, bcrypt::BcryptError>>,
    ) -> (step: HttpStep)
        ensures
            step@ == after_check(
                self.route(),
                checking.waiting(),
                match outcome {
                    Some(Ok(fits)) => Ok(fits),
                    Some(Err(error)) => Err(AuthErrorView::HashingError(error)),
                    None => Err(AuthErrorView::AuthenticationFailed),
                },
            ),
    {
        match AuthManager::conclude(outcome) {
            Ok(true) => self.serve(checking.request),
            Ok(false) => refuse(HttpProxyError::ProxyAuthRequired),
            Err(error) => refuse(HttpProxyError::AuthenticationFailed(error)),
        }
    }

    /// Serves a request that may be served.
    fn serve(&self, request: HttpRequest) -> (step: HttpStep)
        ensures
            step@ == serving(self.route(), request@),
    {
        let method = request.method();
        if same_text(method, "CONNECT") {
            self.handle_connect(&request)
        } else if same_text(method, "GET") || same_text(method, "POST") || same_text(method, "PUT")
            || same_text(method, "DELETE") || same_text(method, "HEAD") || same_text(
            method,
            "OPTIONS",
        ) || same_text(method, "PATCH") {
            self.handle_http_request(&request)
        } else {
            HttpStep::Fail(HttpProxyError::UnsupportedMethod(method.to_owned()))
        }
    }

    /// Serves a request for a tunnel.
    fn handle_connect(&self, request: &HttpRequest) -> (step: HttpStep)
        ensures
            step@ == StepView::Connect(request@.path, OnwardView::Tunnel, asked(request@)),
    {
        connect(request, request.path().to_owned(), Onward::Tunnel)
    }

    /// Serves a request that is to be sent on.
    fn handle_http_request(&self, request: &HttpRequest) -> (step: HttpStep)
        ensures
            step@ == forwarding(self.route(), request@),
    {
        let target = self.target(request.path());
        self.forward(request, parse_url(target.as_str()))
    }

    /// The URL that a path stands for.
    pub fn target(&self, path: &str) -> (r: String)
        ensures
            r@ == target_of(self.route().base, path@),
    {
        match &self.base_path {
            Some(base) => {
                let x = chars_of(path);
                if x.len() > 0 && x[0] == '/' {
                    let y = chars_of(base.as_str());
                    let n: usize = y.len();
                    let end: usize = if n > 0 && y[n - 1] == '/' {
                        n - 1
                    } else {
                        n
                    };
                    let mut r = slice_of(base.as_str(), 0, end);
                    assert(r@ =~= without_slash(base@));
                    r.append(path);
                    r
                } else {
                    path.to_owned()
                }
            },
            None => path.to_owned(),
        }
    }

    /// Sends a request on, where `url` is what became of reading the URL that its path stands for.
    pub fn forward(&self, request: &HttpRequest, url: Result<TargetUrl, url::ParseError>) -> (step:
        HttpStep)
        ensures
            step@ == forwarding_to(self.route(), request@, url_view(url)),
    {
        let url = match url {
            Ok(url) => url,
            Err(error) => {
                return HttpStep::Fail(HttpProxyError::InvalidUrl(error));
            },
        };
        let host = match url.host {
            Some(host) => host,
            None => {
                return invalid("No host in URL");
            },
        };
        let mut relative = url.path;
        if let Some(query) = url.query {
            relative.append("?");
            relative.append(query.as_str());
        }
        let data = request.to_target(relative.as_str());
        if self.upgrade && same_text(url.scheme.as_str(), "http") {
            let target = self.target(request.path());
            let path = replacen_once(target.as_str(), "http://", "https://");
            return self.secure(request, host, data, parse_url(path.as_str()));
        }
        match url.port {
            None => invalid("No port in URL"),
            Some(port) => connect(
                request,
                address_of(host.as_str(), port),
                Onward::Forward(data, None),
            ),
        }
    }

    /// Sends `data` on to `host` over TLS for `request`, where `url` is what became of reading the
    /// URL that was asked for over TLS.
    pub fn secure(
        &self,
        request: &HttpRequest,
        host: String,
        data: Vec<u8>,
        url: Result<TargetUrl, url::ParseError>,
    ) -> (step: HttpStep)
        ensures
            step@ == securing(asked(request@), host@, data@, url_view(url)),
    {
        match url {
            Err(error) => HttpStep::Fail(HttpProxyError::InvalidUrl(error)),
            Ok(url) => {
                let port: u16 = match url.port {
                    Some(port) => port,
                    None => 443,
                };
                let address = address_of(host.as_str(), port);
                connect(request, address, Onward::Forward(data, Some(host)))
            },
        }
    }
}

/// Where somebody has an account, no request goes to a target before a password was checked.
pub proof fn law_no_target_before_login(
    accounts: Map<Seq<char>, Seq<char>>,
    route: RouteView,
    request: RequestView,
)
    requires
        !accounts.is_empty(),
    ensures
        match meeting(accounts, route, request) {
            StepView::Check(waiting, _, expected) => waiting == request && accounts.contains_value(
                expected,
            ),
            StepView::Refuse(reply, _) => reply == proxy_auth_required(),
            StepView::Fail(error) => error is InvalidBase64 || error is InvalidUtf8,
            _ => false,
        },
{
    if let CredentialsView::Login(user, password) = credentials(request.headers) {
        if accounts.contains_key(user) {
            assert(accounts.contains_value(accounts[user]));
        }
    }
}

/// After the check only a password that fits lets the request go on; whatever else came of the
/// check, the client is answered that it has to log in.
pub proof fn law_only_a_fitting_password_goes_on(
    route: RouteView,
    request: RequestView,
    outcome: Result<bool, AuthErrorView>,
)
    ensures
        outcome == Ok::<bool, AuthErrorView>(true) ==> after_check(route, request, outcome)
            == serving(route, request),
        outcome != Ok::<bool, AuthErrorView>(true) ==> (after_check(route, request, outcome)
            matches StepView::Refuse(reply, error) && reply == proxy_auth_required() && (error
            is ProxyAuthRequired || error is AuthenticationFailed)),
{
}

/// What a client sends behind its request makes no difference to how the request is met, and so
/// not to what a target gets of it. It stays in the buffer.
pub proof fn law_later_bytes_stay_here(
    accounts: Map<Seq<char>, Seq<char>>,
    route: RouteView,
    buffered: Seq<u8>,
    more: Seq<u8>,
)
    requires
        reading(StageView::Line, buffered).0 !is More,
    ensures
        after_reading(accounts, route, reading(StageView::Line, buffered + more).0)
            == after_reading(accounts, route, reading(StageView::Line, buffered).0),
        reading(StageView::Line, buffered + more).1 == reading(StageView::Line, buffered).1 + more,
{
    crate::proxy::request::law_reading_resumes(StageView::Line, buffered, more);
}

/// The base path is for relative paths only: it makes no difference to any other request.
pub proof fn law_base_path_is_for_relative_paths(route: RouteView, request: RequestView)
    requires
        !is_relative(request.path),
    ensures
        serving(route, request) == serving(RouteView { base: None, ..route }, request),
{
}

/// A request with a relative path goes where the request for the URL behind the base path goes,
/// and in the same bytes.
pub proof fn law_relative_path_is_behind_the_base_path(
    route: RouteView,
    base: Seq<char>,
    request: RequestView,
)
    requires
        route.base == Some(base),
        is_relative(request.path),
        is_forwarded(request.method),
    ensures
        ({
            let url = without_slash(base) + request.path;
            let spelled = RequestView { path: url, ..request };
            match serving(RouteView { base: None, ..route }, spelled) {
                StepView::Connect(address, onward, _) => serving(route, request)
                    == StepView::Connect(address, onward, asked(request)),
                step => serving(route, request) == step,
            }
        }),
{
    reveal_strlit("CONNECT");
    reveal_strlit("GET");
    reveal_strlit("POST");
    reveal_strlit("PUT");
    reveal_strlit("DELETE");
    reveal_strlit("HEAD");
    reveal_strlit("OPTIONS");
    reveal_strlit("PATCH");
    assert(request.method != "CONNECT"@) by {
        assert("CONNECT"@[0] == 'C');
    }
}

/// Where nobody has an account every request is served, whatever login it comes with.
pub proof fn law_open_without_accounts(route: RouteView, request: RequestView)
    ensures
        meeting(Map::empty(), route, request) == serving(route, request),
{
}

/// A request without a login, or with a name that has no account, is answered that the client has
/// to log in.
pub proof fn law_stranger_is_told_to_log_in(
    accounts: Map<Seq<char>, Seq<char>>,
    route: RouteView,
    request: RequestView,
)
    requires
        !accounts.is_empty(),
        match credentials(request.headers) {
            CredentialsView::Absent => true,
            CredentialsView::Login(user, _) => !accounts.contains_key(user),
            _ => false,
        },
    ensures
        meeting(accounts, route, request) == StepView::Refuse(
            proxy_auth_required(),
            HttpErrorView::ProxyAuthRequired,
        ),
{
}

/// A user who sends the password that the account was set up with is served: the request waits
/// for the check of that password, the check says that it fits, and then the request goes on. The
/// name must not hold a colon, which would end it early.
pub proof fn law_registered_user_is_served(
    users: Seq<(String, String)>,
    accounts: Map<Seq<char>, Seq<char>>,
    route: RouteView,
    request: RequestView,
    user: Seq<char>,
    token: Seq<char>,
)
    requires
        guards(accounts, passwords(users)),
        passwords(users).contains_key(user),
        !user.contains(':'),
        find_header(request.headers, "proxy-authorization"@) == Some("Basic "@ + token),
        base64_decoded(token) == Ok::<Seq<u8>, base64::DecodeError>(
            encode_utf8(user + seq![':'] + passwords(users)[user]),
        ),
    ensures
        meeting(accounts, route, request) == StepView::Check(
            request,
            passwords(users)[user],
            accounts[user],
        ),
        verdict(passwords(users)[user], accounts[user]) == Ok::<bool, bcrypt::BcryptError>(true),
        after_check(route, request, Ok(true)) == serving(route, request),
{
    let password = passwords(users)[user];
    let text = user + seq![':'] + password;
    assert(accounts.contains_key(user));
    assert(!accounts.is_empty());
    assert(crate::text::case::lowercase("proxy-authorization"@) == "proxy-authorization"@) by {
        reveal_strlit("proxy-authorization");
        assert(crate::text::case::lowercase("proxy-authorization"@) =~= "proxy-authorization"@);
    }
    assert(after_prefix("Basic "@ + token, "Basic "@) == Some(token)) by {
        assert(("Basic "@ + token).skip("Basic "@.len() as int) =~= token);
        assert("Basic "@.is_prefix_of("Basic "@ + token));
    }
    vstd::utf8::encode_utf8_valid_utf8(text);
    vstd::utf8::encode_utf8_decode_utf8(text);
    crate::text::scan::lemma_split_at_char_is(user, ':', password);
}

} // verus!
