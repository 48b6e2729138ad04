//! HTTP request/response transport: addresses, requests, and what a channel sends
//! for a request.
use crate::connection::ConnectError;
use crate::connection_auth::{
    control, header_name_is_safe, header_value_is_safe, is_control, lemma_control, quote, quoted,
    safe_name, safe_value, HeaderAuthMaterial, HeaderView,
};
use crate::identifier::{is_letter, letter};
use crate::text::{
    chars_of, pieces_stand_between_separators, same_text, split, split_on,
    splitting_works_part_by_part, strip_end, strip_tail, texts, whole_texts_are_not_split,
};
use vstd::prelude::*;
use vstd::string::*;

verus! {

/// Errors raised by the reusable HTTP transport.
#[derive(Debug, Clone, PartialEq, Eq)]
pub enum HttpTransportError {
    /// The base URL is invalid or unsupported.
    InvalidBaseUrl(String),
    /// The request method is not a safe HTTP token.
    UnsafeMethod(String),
    /// The request path could escape or corrupt the target URL/request line.
    UnsafePath(String),
    /// A request header cannot be safely serialized.
    UnsafeHeader(String),
    /// The HTTP client failed, with its message.
    Request(String),
}

/// A [`HttpTransportError`] with its texts as character sequences.
pub enum HttpErrorView {
    InvalidBaseUrl(Seq<char>),
    UnsafeMethod(Seq<char>),
    UnsafePath(Seq<char>),
    UnsafeHeader(Seq<char>),
    Request(Seq<char>),
}

impl View for HttpTransportError {
    type V = HttpErrorView;

    open spec fn view(&self) -> HttpErrorView {
        match *self {
            HttpTransportError::InvalidBaseUrl(text) => HttpErrorView::InvalidBaseUrl(text@),
            HttpTransportError::UnsafeMethod(text) => HttpErrorView::UnsafeMethod(text@),
            HttpTransportError::UnsafePath(text) => HttpErrorView::UnsafePath(text@),
            HttpTransportError::UnsafeHeader(text) => HttpErrorView::UnsafeHeader(text@),
            HttpTransportError::Request(text) => HttpErrorView::Request(text@),
        }
    }
}

impl HttpErrorView {
    /// The text that a person reads of the error.
    pub open spec fn message(self) -> Seq<char> {
        match self {
            HttpErrorView::InvalidBaseUrl(text) => "invalid HTTP base URL: "@ + text,
            HttpErrorView::UnsafeMethod(text) => "unsafe HTTP method: "@ + quoted(text),
            HttpErrorView::UnsafePath(text) => "unsafe HTTP path: "@ + quoted(text),
            HttpErrorView::UnsafeHeader(text) => "unsafe HTTP header: "@ + quoted(text),
            HttpErrorView::Request(text) => text,
        }
    }
}

impl HttpTransportError {
    /// The text that a person reads of the error.
    pub fn message(&self) -> (text: String)
        ensures
            text@ == self@.message(),
    {
        match self {
            HttpTransportError::InvalidBaseUrl(text) => "invalid HTTP base URL: ".to_owned().concat(
                text.as_str(),
            ),
            HttpTransportError::UnsafeMethod(text) => {
                let text = quote(text.as_str());
                "unsafe HTTP method: ".to_owned().concat(text.as_str())
            },
            HttpTransportError::UnsafePath(text) => {
                let text = quote(text.as_str());
                "unsafe HTTP path: ".to_owned().concat(text.as_str())
            },
            HttpTransportError::UnsafeHeader(text) => {
                let text = quote(text.as_str());
                "unsafe HTTP header: ".to_owned().concat(text.as_str())
            },
            HttpTransportError::Request(text) => text.clone(),
        }
    }
}

/// What a failed HTTP transport is to a connection: a refused address or request
/// is a setup failure, a failed exchange is an I/O failure.
pub open spec fn connect_error(error: HttpTransportError) -> ConnectError {
    match error {
        HttpTransportError::InvalidBaseUrl(message) => ConnectError::Setup(message),
        HttpTransportError::UnsafeMethod(message) => ConnectError::Setup(message),
        HttpTransportError::UnsafePath(message) => ConnectError::Setup(message),
        HttpTransportError::UnsafeHeader(message) => ConnectError::Setup(message),
        HttpTransportError::Request(message) => ConnectError::Io(message),
    }
}

impl From<HttpTransportError> for ConnectError {
    fn from(error: HttpTransportError) -> (converted: Self) {
        match error {
            HttpTransportError::InvalidBaseUrl(message) => ConnectError::Setup(message),
            HttpTransportError::UnsafeMethod(message) => ConnectError::Setup(message),
            HttpTransportError::UnsafePath(message) => ConnectError::Setup(message),
            HttpTransportError::UnsafeHeader(message) => ConnectError::Setup(message),
            HttpTransportError::Request(message) => ConnectError::Io(message),
        }
    }
}

impl vstd::std_specs::convert::FromSpecImpl<HttpTransportError> for ConnectError {
    open spec fn obeys_from_spec() -> bool {
        true
    }

    open spec fn from_spec(error: HttpTransportError) -> ConnectError {
        connect_error(error)
    }
}

/// What the transport reads of a URL.
#[derive(Debug, Clone, PartialEq, Eq)]
pub struct UrlParts {
    /// The normalized text of the URL.
    pub href: String,
    pub scheme: String,
    pub host: Option<String>,
}

/// [`UrlParts`] with its texts as character sequences.
pub struct UrlView {
    pub href: Seq<char>,
    pub scheme: Seq<char>,
    pub host: Option<Seq<char>>,
}

impl View for UrlParts {
    type V = UrlView;

    open spec fn view(&self) -> UrlView {
        UrlView {
            href: self.href@,
            scheme: self.scheme@,
            host: match self.host {
                Some(host) => Some(host@),
                None => None,
            },
        }
    }
}

/// The URL that a text is, or the reason why it is none.
pub uninterp spec fn parsed_url(text: Seq<char>) -> Result<UrlView, Seq<char>>;

/// The outcome of reading a URL by its views.
pub open spec fn url_outcome(r: Result<UrlParts, String>) -> Result<UrlView, Seq<char>> {
    match r {
        Ok(parts) => Ok(parts@),
        Err(reason) => Err(reason@),
    }
}

/// `url::Url::parse`, with the URL's text, scheme and host, or the error's text.
/// Stated here: the outcome is a function of the text alone.
#[verifier::external_body]
fn parse_url(text: &str) -> (r: Result<UrlParts, String>)
    ensures
        url_outcome(r) == parsed_url(text@),
{
    match url::Url::parse(text) {
        Ok(parsed) => Ok(
            UrlParts {
                href: parsed.as_str().to_string(),
                scheme: parsed.scheme().to_string(),
                host: parsed.host_str().map(|host| host.to_string()),
            },
        ),
        Err(error) => Err(error.to_string()),
    }
}

/// Base URL for an HTTP channel.
#[derive(Clone, Debug, PartialEq, Eq)]
pub struct HttpAddress {
    base_url: UrlParts,
}

impl View for HttpAddress {
    type V = UrlView;

    closed spec fn view(&self) -> UrlView {
        self.base_url@
    }
}

/// The address that a parsed base URL makes: it must be HTTP or HTTPS and have a
/// host.
pub open spec fn address_of(parsed: Result<UrlView, Seq<char>>) -> Result<UrlView, HttpErrorView> {
    match parsed {
        Err(reason) => Err(HttpErrorView::InvalidBaseUrl(reason)),
        Ok(url) => if url.scheme != "http"@ && url.scheme != "https"@ {
            Err(HttpErrorView::InvalidBaseUrl("unsupported scheme `"@ + url.scheme + "`"@))
        } else if url.host is None {
            Err(HttpErrorView::InvalidBaseUrl("missing host"@))
        } else {
            Ok(url)
        },
    }
}

/// A path: empty or rooted, without control characters and dot segments.
pub open spec fn safe_path(path: Seq<char>) -> bool {
    &&& path.len() == 0 || path[0] == '/'
    &&& forall|i: int| 0 <= i < path.len() ==> !is_control(#[trigger] path[i])
    &&& !split_on(path, '/').contains("."@)
    &&& !split_on(path, '/').contains(".."@)
}

/// A method: one to sixteen letters.
pub open spec fn safe_method(method: Seq<char>) -> bool {
    &&& 0 < method.len() <= 16
    &&& forall|i: int| 0 <= i < method.len() ==> is_letter(#[trigger] method[i])
}

/// The text of the URL for a path under a base: the base without its trailing
/// slashes, and the path, or a slash for the empty path.
pub open spec fn target_text(base: Seq<char>, path: Seq<char>) -> Seq<char> {
    strip_end(base, '/') + (if path.len() == 0 {
        seq!['/']
    } else {
        path
    })
}

/// The URL of a request, once its text was parsed.
pub open spec fn target_of(parsed: Result<UrlView, Seq<char>>) -> Result<
    Seq<char>,
    HttpErrorView,
> {
    match parsed {
        Err(reason) => Err(HttpErrorView::InvalidBaseUrl(reason)),
        Ok(url) => Ok(url.href),
    }
}

impl HttpAddress {
    /// Parse and validate an HTTP(S) base URL.
    pub fn new(base_url: &str) -> (r: Result<Self, HttpTransportError>)
        ensures
            match r {
                Ok(address) => address_of(parsed_url(base_url@)) == Ok::<UrlView, HttpErrorView>(
                    address@,
                ),
                Err(error) => address_of(parsed_url(base_url@)) == Err::<UrlView, HttpErrorView>(
                    error@,
                ),
            },
    {
        HttpAddress::from_parsed(parse_url(base_url))
    }

    /// Validate a parsed base URL.
    pub fn from_parsed(parsed: Result<UrlParts, String>) -> (r: Result<Self, HttpTransportError>)
        ensures
            match r {
                Ok(address) => address_of(url_outcome(parsed)) == Ok::<UrlView, HttpErrorView>(
                    address@,
                ),
                Err(error) => address_of(url_outcome(parsed)) == Err::<UrlView, HttpErrorView>(
                    error@,
                ),
            },
    {
        let url = match parsed {
            Ok(url) => url,
            Err(reason) => return Err(HttpTransportError::InvalidBaseUrl(reason)),
        };
        if !same_text(url.scheme.as_str(), "http") && !same_text(url.scheme.as_str(), "https") {
            return Err(
                HttpTransportError::InvalidBaseUrl(
                    "unsupported scheme `".to_owned().concat(url.scheme.as_str()).concat("`"),
                ),
            );
        }
        if url.host.is_none() {
            return Err(HttpTransportError::InvalidBaseUrl("missing host".to_owned()));
        }
        Ok(HttpAddress { base_url: url })
    }

    /// The text of the validated base URL.
    pub fn as_url(&self) -> (href: &str)
        ensures
            href@ == self@.href,
    {
        self.base_url.href.as_str()
    }

    /// The text of the URL for a rooted path under this address.
    pub fn target(&self, path: &str) -> (r: Result<String, HttpTransportError>)
        ensures
            match r {
                Ok(text) => safe_path(path@) && text@ == target_text(self@.href, path@),
                Err(error) => !safe_path(path@) && error@ == HttpErrorView::UnsafePath(path@),
            },
    {
        if !path_is_safe(path) {
            return Err(HttpTransportError::UnsafePath(path.to_owned()));
        }
        let mut text = strip_tail(self.base_url.href.as_str(), '/');
        if path.is_empty() {
            text.push('/');
            assert(text@ =~= target_text(self@.href, path@));
        } else {
            text.append(path);
        }
        Ok(text)
    }

    /// Build a URL under this address from a rooted path.
    pub fn request_url(&self, path: &str) -> (r: Result<String, HttpTransportError>)
        ensures
            match r {
                Ok(url) => request_target(self@, path@) == Ok::<Seq<char>, HttpErrorView>(url@),
                Err(error) => request_target(self@, path@) == Err::<Seq<char>, HttpErrorView>(
                    error@,
                ),
            },
    {
        match self.target(path) {
            Err(error) => Err(error),
            Ok(text) => HttpAddress::parsed_target(parse_url(text.as_str())),
        }
    }

    /// The URL of a request, once its text was parsed.
    pub fn parsed_target(parsed: Result<UrlParts, String>) -> (r: Result<
        String,
        HttpTransportError,
    >)
        ensures
            match r {
                Ok(url) => target_of(url_outcome(parsed)) == Ok::<Seq<char>, HttpErrorView>(url@),
                Err(error) => target_of(url_outcome(parsed)) == Err::<Seq<char>, HttpErrorView>(
                    error@,
                ),
            },
    {
        match parsed {
            Ok(url) => Ok(url.href),
            Err(reason) => Err(HttpTransportError::InvalidBaseUrl(reason)),
        }
    }
}

/// The URL of a path under an address.
pub open spec fn request_target(address: UrlView, path: Seq<char>) -> Result<
    Seq<char>,
    HttpErrorView,
> {
    if !safe_path(path) {
        Err(HttpErrorView::UnsafePath(path))
    } else {
        target_of(parsed_url(target_text(address.href, path)))
    }
}

/// Whether a method is one to sixteen letters.
pub fn method_is_safe(method: &str) -> (safe: bool)
    ensures
        safe == safe_method(method@),
{
    let chars = chars_of(method);
    if chars.len() == 0 || chars.len() > 16 {
        return false;
    }
    let mut i: usize = 0;
    while i < chars.len()
        invariant
            i <= chars@.len(),
            chars@ == method@,
            forall|k: int| 0 <= k < i ==> is_letter(#[trigger] method@[k]),
        decreases chars@.len() - i,
    {
        if !letter(chars[i]) {
            assert(!is_letter(method@[i as int]));
            return false;
        }
        i += 1;
    }
    true
}

/// Whether a path is empty or rooted, without control characters and dot
/// segments.
pub fn path_is_safe(path: &str) -> (safe: bool)
    ensures
        safe == safe_path(path@),
{
    let chars = chars_of(path);
    if chars.len() > 0 && chars[0] != '/' {
        return false;
    }
    let mut i: usize = 0;
    while i < chars.len()
        invariant
            i <= chars@.len(),
            chars@ == path@,
            forall|k: int| 0 <= k < i ==> !is_control(#[trigger] path@[k]),
        decreases chars@.len() - i,
    {
        if control(chars[i]) {
            assert(is_control(path@[i as int]));
            return false;
        }
        i += 1;
    }
    let segments = split(path, '/');
    let ghost all = split_on(path@, '/');
    let mut j: usize = 0;
    while j < segments.len()
        invariant
            j <= segments@.len(),
            all == split_on(path@, '/'),
            all == texts(segments@),
            forall|k: int| 0 <= k < j ==> #[trigger] all[k] != "."@ && all[k] != ".."@,
        decreases segments@.len() - j,
    {
        assert(all[j as int] == segments@[j as int]@);
        if same_text(segments[j].as_str(), ".") || same_text(segments[j].as_str(), "..") {
            assert(all.contains(all[j as int]));
            return false;
        }
        j += 1;
    }
    true
}

/// Why a request header is refused, if it is.
pub open spec fn header_refused(name: Seq<char>, value: Seq<char>) -> Option<HttpErrorView> {
    if !safe_name(name) || !safe_value(value) {
        Some(HttpErrorView::UnsafeHeader(name))
    } else {
        None
    }
}

fn validate_header(name: &str, value: &str) -> (r: Result<(), HttpTransportError>)
    ensures
        match r {
            Ok(()) => header_refused(name@, value@) is None,
            Err(error) => header_refused(name@, value@) == Some(error@),
        },
{
    if !header_name_is_safe(name) || !header_value_is_safe(value) {
        return Err(HttpTransportError::UnsafeHeader(name.to_owned()));
    }
    Ok(())
}

#[verifier::external_type_specification]
#[verifier::external_body]
pub struct ExJsonValue(serde_json::Value);

/// Request data accepted by an HTTP channel.
#[derive(Clone, Debug, PartialEq)]
pub struct HttpRequest {
    /// HTTP method.
    pub method: String,
    /// Rooted path relative to the channel base URL.
    pub path: String,
    /// Extra headers to send with the request.
    pub headers: Vec<(String, String)>,
    /// Optional JSON body.
    pub body: Option<serde_json::Value>,
}

/// The views of a sequence of names and values.
pub open spec fn header_texts(headers: Seq<(String, String)>) -> Seq<HeaderView> {
    headers.map_values(
        |header: (String, String)| HeaderView { name: header.0@, value: header.1@ },
    )
}

/// The first of the headers that is refused.
pub open spec fn headers_refused(headers: Seq<HeaderView>) -> Option<HttpErrorView>
    decreases headers.len(),
{
    if headers.len() == 0 {
        None
    } else {
        match header_refused(headers[0].name, headers[0].value) {
            Some(fault) => Some(fault),
            None => headers_refused(headers.drop_first()),
        }
    }
}

impl HttpRequest {
    /// Why the request is refused, if it is: its method, its path, or the first
    /// unsafe header.
    pub open spec fn fault(self) -> Option<HttpErrorView> {
        if !safe_method(self.method@) {
            Some(HttpErrorView::UnsafeMethod(self.method@))
        } else if !safe_path(self.path@) {
            Some(HttpErrorView::UnsafePath(self.path@))
        } else {
            headers_refused(header_texts(self.headers@))
        }
    }

    /// Build a request with no extra headers or body.
    pub fn new(method: &str, path: &str) -> (request: Self)
        ensures
            request.method@ == method@,
            request.path@ == path@,
            request.headers@.len() == 0,
            request.body is None,
    {
        HttpRequest {
            method: method.to_owned(),
            path: path.to_owned(),
            headers: Vec::new(),
            body: None,
        }
    }

    /// Attach one safe header.
    pub fn with_header(self, name: &str, value: &str) -> (r: Result<Self, HttpTransportError>)
        ensures
            match r {
                Ok(request) => header_refused(name@, value@) is None && request.method
                    == self.method && request.path == self.path && request.body == self.body
                    && header_texts(request.headers@) == header_texts(self.headers@).push(
                    HeaderView { name: name@, value: value@ },
                ),
                Err(error) => header_refused(name@, value@) == Some(error@),
            },
    {
        if let Err(error) = validate_header(name, value) {
            return Err(error);
        }
        let HttpRequest { method, path, headers, body } = self;
        let ghost before = headers@;
        let mut headers = headers;
        headers.push((name.to_owned(), value.to_owned()));
        assert(header_texts(headers@) =~= header_texts(before).push(
            HeaderView { name: name@, value: value@ },
        ));
        Ok(HttpRequest { method, path, headers, body })
    }

    /// Attach a JSON body.
    pub fn with_json(self, body: serde_json::Value) -> (request: Self)
        ensures
            request.method == self.method,
            request.path == self.path,
            request.headers == self.headers,
            request.body == Some(body),
    {
        let HttpRequest { method, path, headers, body: _ } = self;
        HttpRequest { method, path, headers, body: Some(body) }
    }

    /// Whether the request may be sent.
    pub fn validate(&self) -> (r: Result<(), HttpTransportError>)
        ensures
            match r {
                Ok(()) => self.fault() is None,
                Err(error) => self.fault() == Some(error@),
            },
    {
        if !method_is_safe(self.method.as_str()) {
            return Err(HttpTransportError::UnsafeMethod(self.method.clone()));
        }
        if !path_is_safe(self.path.as_str()) {
            return Err(HttpTransportError::UnsafePath(self.path.clone()));
        }
        let ghost all = header_texts(self.headers@);
        let mut i: usize = 0;
        assert(all.skip(0) =~= all);
        while i < self.headers.len()
            invariant
                i <= self.headers@.len(),
                all == header_texts(self.headers@),
                safe_method(self.method@),
                safe_path(self.path@),
                headers_refused(all) == headers_refused(all.skip(i as int)),
            decreases self.headers@.len() - i,
        {
            let (name, value) = &self.headers[i];
            assert(all.skip(i as int)[0] == all[i as int]);
            assert(all.skip(i as int).drop_first() =~= all.skip(i + 1));
            if let Err(error) = validate_header(name.as_str(), value.as_str()) {
                return Err(error);
            }
            i += 1;
        }
        Ok(())
    }
}

/// What a channel sends for a request: the method, the URL, the headers in order,
/// and the JSON body.
#[derive(Debug)]
pub struct Exchange {
    pub method: String,
    pub url: String,
    pub headers: Vec<(String, String)>,
    pub body: Option<serde_json::Value>,
}

/// Whether `r` is what a channel with this address and material sends for a
/// request: nothing for a request that may not be sent; otherwise the method, the
/// URL of the path under the address, the headers of the material and behind them
/// those of the request, and the body.
pub open spec fn is_exchange(
    request: HttpRequest,
    address: UrlView,
    material: Seq<HeaderView>,
    r: Result<Exchange, HttpTransportError>,
) -> bool {
    match r {
        Err(error) => match request.fault() {
            Some(fault) => error@ == fault,
            None => request_target(address, request.path@) == Err::<Seq<char>, HttpErrorView>(
                error@,
            ),
        },
        Ok(exchange) => {
            &&& request.fault() is None
            &&& request_target(address, request.path@) == Ok::<Seq<char>, HttpErrorView>(
                exchange.url@,
            )
            &&& exchange.method@ == request.method@
            &&& header_texts(exchange.headers@) == material + header_texts(request.headers@)
            &&& exchange.body == request.body
        },
    }
}

/// Every header can be sent: none of them can break out of its line.
pub open spec fn all_safe(headers: Seq<(String, String)>) -> bool {
    forall|i: int|
        0 <= i < headers.len() ==> safe_name((#[trigger] headers[i]).0@) && safe_value(
            headers[i].1@,
        )
}

/// An HTTP channel bound to one base URL and one material set. The client that
/// sends its exchanges is not part of it.
#[derive(Clone)]
pub struct HttpChannel {
    address: HttpAddress,
    material: HeaderAuthMaterial,
}

/// What a channel is bound to.
pub struct ChannelView {
    pub address: UrlView,
    pub material: Seq<HeaderView>,
}

impl View for HttpChannel {
    type V = ChannelView;

    closed spec fn view(&self) -> ChannelView {
        ChannelView { address: self.address@, material: self.material@ }
    }
}

impl HttpChannel {
    /// Bind a channel to a base address and already-materialized header material.
    ///
    /// Establishing an HTTP channel performs no network I/O; requests are issued
    /// later per exchange.
    pub fn establish(address: HttpAddress, material: &HeaderAuthMaterial) -> (channel: Self)
        ensures
            channel@ == (ChannelView { address: address@, material: material@ }),
    {
        HttpChannel { address, material: material.clone() }
    }

    /// The base address this channel is bound to.
    pub fn address(&self) -> (address: &HttpAddress)
        ensures
            address@ == self@.address,
    {
        &self.address
    }

    /// The already-materialized header material bound to this channel.
    pub fn material(&self) -> (material: &HeaderAuthMaterial)
        ensures
            material@ == self@.material,
    {
        &self.material
    }

    /// What is sent to the text of an absolute URL: the channel's material, and no
    /// body. The text is not looked at.
    pub fn build_request_to_url_str(&self, method: &str, url: &str) -> (exchange: Exchange)
        ensures
            exchange.method@ == method@,
            exchange.url@ == url@,
            header_texts(exchange.headers@) == self@.material,
            all_safe(exchange.headers@),
            exchange.body is None,
    {
        let headers = self.material.headers();
        assert(header_texts(headers@) =~= self@.material);
        Exchange { method: method.to_owned(), url: url.to_owned(), headers, body: None }
    }

    /// What is sent to an absolute URL: the channel's material, and no body.
    pub fn build_request_to_url(&self, method: &str, url: &UrlParts) -> (exchange: Exchange)
        ensures
            exchange.method@ == method@,
            exchange.url@ == url@.href,
            header_texts(exchange.headers@) == self@.material,
            all_safe(exchange.headers@),
            exchange.body is None,
    {
        self.build_request_to_url_str(method, url.href.as_str())
    }

    /// What is sent to a rooted path under the channel base URL.
    pub fn build_request(&self, method: &str, path: &str) -> (r: Result<
        Exchange,
        HttpTransportError,
    >)
        ensures
            match r {
                Ok(exchange) => request_target(self@.address, path@) == Ok::<
                    Seq<char>,
                    HttpErrorView,
                >(exchange.url@) && exchange.method@ == method@ && header_texts(exchange.headers@)
                    == self@.material && all_safe(exchange.headers@) && exchange.body is None,
                Err(error) => request_target(self@.address, path@) == Err::<
                    Seq<char>,
                    HttpErrorView,
                >(error@),
            },
    {
        match self.address.request_url(path) {
            Ok(url) => Ok(self.build_request_to_url_str(method, url.as_str())),
            Err(error) => Err(error),
        }
    }

    /// What is sent for a request. A request that may not be sent is refused before
    /// any network use.
    pub fn request(&self, request: HttpRequest) -> (r: Result<Exchange, HttpTransportError>)
        ensures
            is_exchange(request, self@.address, self@.material, r),
            r is Ok ==> all_safe(r->Ok_0.headers@),
    {
        proof {
            if headers_refused(header_texts(request.headers@)) is None {
                lemma_headers_safe(header_texts(request.headers@));
            }
        }
        if let Err(error) = request.validate() {
            return Err(error);
        }
        let mut exchange = match self.build_request(
            request.method.as_str(),
            request.path.as_str(),
        ) {
            Ok(exchange) => exchange,
            Err(error) => return Err(error),
        };
        let HttpRequest { method: _, path: _, headers, body } = request;
        let mut own = headers;
        let ghost first = header_texts(exchange.headers@);
        let ghost second = header_texts(own@);
        exchange.headers.append(&mut own);
        exchange.body = body;
        assert(header_texts(exchange.headers@) =~= first + second);
        assert forall|i: int| 0 <= i < exchange.headers@.len() implies safe_name(
            (#[trigger] exchange.headers@[i]).0@,
        ) && safe_value(exchange.headers@[i].1@) by {
            if i >= first.len() {
                let k = i - first.len();
                assert(second[k] == header_texts(request.headers@)[k]);
                assert(second[k].name == exchange.headers@[i].0@);
            }
        }
        Ok(exchange)
    }
}

proof fn lemma_headers_safe(headers: Seq<HeaderView>)
    requires
        headers_refused(headers) is None,
    ensures
        forall|i: int|
            0 <= i < headers.len() ==> safe_name((#[trigger] headers[i]).name) && safe_value(
                headers[i].value,
            ),
    decreases headers.len(),
{
    if headers.len() > 0 {
        let rest = headers.drop_first();
        lemma_headers_safe(rest);
        assert forall|i: int| 0 <= i < headers.len() implies safe_name((#[trigger] headers[i]).name)
            && safe_value(headers[i].value) by {
            if i > 0 {
                assert(rest[i - 1] == headers[i]);
            }
        }
    }
}

/// Nothing unsafe is sent: of whatever a channel sends for a request, the method is
/// a token of letters and the path has no dot segment and no control character.
pub proof fn exchanges_are_safe(
    request: HttpRequest,
    address: UrlView,
    material: Seq<HeaderView>,
    exchange: Exchange,
)
    requires
        is_exchange(request, address, material, Ok(exchange)),
    ensures
        safe_method(exchange.method@),
        safe_path(request.path@),
{
}

/// A segment of one or two dots stands behind the slash at position `i`.
pub open spec fn dot_segment_at(path: Seq<char>, i: int) -> bool {
    let ends = |n: int| i + n == path.len() || (i + n < path.len() && path[i + n] == '/');
    &&& 0 <= i && i + 1 < path.len()
    &&& path[i] == '/'
    &&& path[i + 1] == '.'
    &&& ends(2) || (i + 2 < path.len() && path[i + 2] == '.' && ends(3))
}

/// A path is refused exactly if it is neither empty nor rooted, holds a control
/// character, or has a segment that is one dot or two.
pub proof fn refused_paths_leave_the_root(path: Seq<char>)
    ensures
        !safe_path(path) <==> {
            ||| path.len() > 0 && path[0] != '/'
            ||| exists|i: int|
                0 <= i < path.len() && (#[trigger] path[i] < ' ' || path[i] as int == 127)
            ||| path.len() > 0 && path[0] == '/' && exists|i: int| #[trigger]
                dot_segment_at(path, i)
        },
{
    reveal_strlit(".");
    reveal_strlit("..");
    assert("."@ =~= seq!['.']);
    assert(".."@ =~= seq!['.', '.']);
    let pieces = split_on(path, '/');
    assert forall|dots: Seq<char>| (dots == "."@ || dots == ".."@) && #[trigger] pieces.contains(
        dots,
    ) && path.len() > 0 && path[0] == '/' implies exists|i: int| #[trigger]
        dot_segment_at(path, i) by {
        let k = choose|k: int| 0 <= k < pieces.len() && pieces[k] == dots;
        let at = pieces_stand_between_separators(path, '/', k);
        let here = path.subrange(at, at + dots.len());
        assert(here[0] == '.');
        assert(path[at] == '.');
        if dots.len() == 2 {
            assert(here[1] == '.');
        }
        assert(dot_segment_at(path, at - 1));
    }
    if exists|i: int| #[trigger] dot_segment_at(path, i) {
        let i = choose|i: int| #[trigger] dot_segment_at(path, i);
        let n: int = if i + 2 == path.len() || path[i + 2] == '/' {
            1
        } else {
            2
        };
        let before = path.take(i);
        let after = path.skip(i + 1);
        let dots = after.take(n);
        splitting_works_part_by_part(before, '/', after);
        assert(path =~= before + seq!['/'] + after);
        if n == 1 {
            assert(dots =~= "."@);
        } else {
            assert(dots =~= ".."@);
        }
        whole_texts_are_not_split(dots, '/');
        let one = split_on(before, '/');
        let two = split_on(after, '/');
        if after.len() == n {
            assert(after =~= dots);
        } else {
            let rest = after.skip(n + 1);
            assert(after =~= dots + seq!['/'] + rest);
            splitting_works_part_by_part(dots, '/', rest);
        }
        assert(two[0] == dots);
        assert(pieces[one.len() as int] == dots);
        assert(pieces.contains(dots));
    }
    if exists|i: int|
        0 <= i < path.len() && (#[trigger] path[i] < ' ' || path[i] as int == 127) {
        let i = choose|i: int|
            0 <= i < path.len() && (#[trigger] path[i] < ' ' || path[i] as int == 127);
        lemma_control(path[i]);
        assert(is_control(path[i]));
    }
    if exists|i: int| 0 <= i < path.len() && is_control(#[trigger] path[i]) {
        let i = choose|i: int| 0 <= i < path.len() && is_control(#[trigger] path[i]);
        lemma_control(path[i]);
        assert(path[i] < ' ' || path[i] as int == 127);
    }
}

/// A request goes to its own path: behind a base that ends in any number of slashes, the
/// target is the base without them and the path, with one slash for the empty path.
pub proof fn targets_join_base_and_path(base: Seq<char>, slashes: Seq<char>, path: Seq<char>)
    requires
        base.len() > 0 ==> base.last() != '/',
        forall|i: int| 0 <= i < slashes.len() ==> #[trigger] slashes[i] == '/',
    ensures
        path.len() > 0 ==> target_text(base + slashes, path) == base + path,
        path.len() == 0 ==> target_text(base + slashes, path) == base.push('/'),
    decreases slashes.len(),
{
    if slashes.len() > 0 {
        let fewer = slashes.drop_last();
        assert forall|i: int| 0 <= i < fewer.len() implies #[trigger] fewer[i] == '/' by {
            assert(fewer[i] == slashes[i]);
        }
        targets_join_base_and_path(base, fewer, path);
        assert((base + slashes).drop_last() =~= base + fewer);
        assert((base + slashes).last() == slashes[slashes.len() - 1]);
    } else {
        assert(base + slashes =~= base);
        assert(base + seq!['/'] =~= base.push('/'));
    }
}

} // verus!
