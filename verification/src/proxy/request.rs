//! Requests: how they are read from a client and written to a target.

use vstd::prelude::*;
use vstd::utf8::encode_utf8;

use crate::net::conn::{BufferedConnection, ConnError, ConnErrorView, LineView, ReadEvent, Turn};
use crate::proxy::http::{HttpErrorView, HttpProxyError};
use crate::text::case::to_lowercase;
use crate::text::number::parse_usize;
use crate::text::scan::{has_prefix, same_text, split_once, split_whitespace, trim};

verus! {

/// A header in views: its name as it was written, and its value.
pub struct HeaderView {
    pub name: Seq<char>,
    pub value: Seq<char>,
}

/// A request in views.
pub struct RequestView {
    pub method: Seq<char>,
    pub path: Seq<char>,
    pub version: Seq<char>,
    pub headers: Seq<HeaderView>,
    pub body: Seq<u8>,
}

/// The header that a line writes: what stands before and after its first colon, trimmed. A line
/// without a colon writes none.
pub open spec fn header_of(line: Seq<char>) -> Option<HeaderView> {
    match crate::text::scan::split_at_char(line, ':') {
        None => None,
        Some((name, value)) => Some(
            HeaderView {
                name: crate::text::scan::trimmed(name),
                value: crate::text::scan::trimmed(value),
            },
        ),
    }
}

/// The value of the first header whose name in lower case is `key`.
pub open spec fn find_header(headers: Seq<HeaderView>, key: Seq<char>) -> Option<Seq<char>>
    decreases headers.len(),
{
    if headers.len() == 0 {
        None
    } else if crate::text::case::lowercase(headers[0].name) == key {
        Some(headers[0].value)
    } else {
        find_header(headers.skip(1), key)
    }
}

/// How far the reading of a request has come: to its first line, to the lines of its headers, or
/// to its body, of which the length is known.
pub enum StageView {
    Line,
    Headers(RequestView),
    Body(RequestView, nat),
}

/// What the reading of a request comes to.
pub enum ReadingView {
    /// More bytes are needed.
    More(StageView),
    Failed(HttpErrorView),
    Complete(RequestView),
}

/// The request that the first line begins: its first three words are method, path and version.
pub open spec fn begun(line: Seq<char>) -> Option<RequestView> {
    let words = crate::text::scan::words(line);
    if words.len() < 3 {
        None
    } else {
        Some(
            RequestView {
                method: words[0],
                path: words[1],
                version: words[2],
                headers: Seq::empty(),
                body: Seq::empty(),
            },
        )
    }
}

/// The request with the header that `line` writes, where it writes one.
pub open spec fn with_line(request: RequestView, line: Seq<char>) -> RequestView {
    match header_of(line) {
        None => request,
        Some(header) => RequestView { headers: request.headers.push(header), ..request },
    }
}

/// How many bytes the body has: what the first `content-length` header says, or else none. `None`
/// where that header holds no number.
pub open spec fn body_length(headers: Seq<HeaderView>) -> Option<nat> {
    match find_header(headers, "content-length"@) {
        None => Some(0),
        Some(value) => match crate::text::number::parsed(value) {
            None => None,
            Some(n) => Some(n as nat),
        },
    }
}

/// What reading from `stage` comes to where `buffered` is there to be read, and what stays in the
/// buffer.
pub open spec fn reading(stage: StageView, buffered: Seq<u8>) -> (ReadingView, Seq<u8>)
    decreases buffered.len(),
{
    match stage {
        StageView::Line => match crate::net::conn::front_line(buffered) {
            LineView::Partial => (ReadingView::More(stage), buffered),
            LineView::Malformed(line) => (
                ReadingView::Failed(
                    HttpErrorView::IoError(
                        ConnErrorView::InvalidLine(crate::text::utf::utf8_error(line)),
                    ),
                ),
                buffered,
            ),
            LineView::Line(line, rest) => match begun(line) {
                None => (
                    ReadingView::Failed(
                        HttpErrorView::InvalidRequest("Invalid HTTP request line"@),
                    ),
                    rest,
                ),
                Some(request) => {
                    proof {
                        crate::net::conn::lemma_front_line_shrinks(buffered);
                    }
                    reading(StageView::Headers(request), rest)
                },
            },
        },
        StageView::Headers(request) => match crate::net::conn::front_line(buffered) {
            LineView::Partial => (ReadingView::More(stage), buffered),
            LineView::Malformed(line) => (
                ReadingView::Failed(
                    HttpErrorView::IoError(
                        ConnErrorView::InvalidLine(crate::text::utf::utf8_error(line)),
                    ),
                ),
                buffered,
            ),
            LineView::Line(line, rest) => {
                proof {
                    crate::net::conn::lemma_front_line_shrinks(buffered);
                }
                if line.len() > 0 {
                    reading(StageView::Headers(with_line(request, line)), rest)
                } else {
                    match body_length(request.headers) {
                        None => (
                            ReadingView::Failed(
                                HttpErrorView::InvalidRequest("Invalid Content-Length"@),
                            ),
                            rest,
                        ),
                        Some(n) => reading(StageView::Body(request, n), rest),
                    }
                }
            },
        },
        StageView::Body(request, n) => if buffered.len() < n {
            (ReadingView::More(stage), buffered)
        } else {
            (
                ReadingView::Complete(RequestView { body: buffered.take(n as int), ..request }),
                buffered.skip(n as int),
            )
        },
    }
}

/// The error of a stream that ends while `stage` waits.
pub open spec fn cut_short(stage: StageView) -> HttpErrorView {
    match stage {
        StageView::Body(..) => HttpErrorView::IoError(ConnErrorView::ConnectionClosed),
        _ => HttpErrorView::IoError(ConnErrorView::ClosedBeforeLineEnd),
    }
}

/// What one turn of reading comes to, the end of the stream included.
pub open spec fn reading_turn(stage: StageView, buffered: Seq<u8>, end: bool) -> (
    ReadingView,
    Seq<u8>,
) {
    if end {
        (ReadingView::Failed(cut_short(stage)), buffered)
    } else {
        reading(stage, buffered)
    }
}

/// Reading on with more bytes comes to the same as reading all bytes at once.
pub proof fn law_reading_resumes(stage: StageView, first: Seq<u8>, more: Seq<u8>)
    ensures
        reading(stage, first + more) == match reading(stage, first) {
            (ReadingView::More(next), rest) => reading(next, rest + more),
            (done, rest) => (done, rest + more),
        },
    decreases first.len(),
{
    let all = first + more;
    match stage {
        StageView::Body(request, n) => {
            if first.len() >= n {
                assert(all.take(n as int) =~= first.take(n as int));
                assert(all.skip(n as int) =~= first.skip(n as int) + more);
            }
        },
        _ => {
            if crate::net::conn::front_line(first) !is Partial {
                crate::net::conn::law_line_ignores_later_bytes(first, more);
                crate::net::conn::lemma_front_line_shrinks(first);
                crate::net::conn::lemma_front_line_shrinks(all);
                if let LineView::Line(line, rest) = crate::net::conn::front_line(first) {
                    match stage {
                        StageView::Line => {
                            if let Some(request) = begun(line) {
                                law_reading_resumes(StageView::Headers(request), rest, more);
                            }
                        },
                        StageView::Headers(request) => {
                            if line.len() > 0 {
                                law_reading_resumes(
                                    StageView::Headers(with_line(request, line)),
                                    rest,
                                    more,
                                );
                            } else if let Some(n) = body_length(request.headers) {
                                law_reading_resumes(StageView::Body(request, n), rest, more);
                            }
                        },
                        StageView::Body(..) => {},
                    }
                }
            }
        },
    }
}

/// Reading takes bytes off the front only: what is left is the end of what there was.
pub proof fn law_reading_leaves_the_rest(stage: StageView, buffered: Seq<u8>)
    ensures
        reading(stage, buffered).1.len() <= buffered.len(),
        reading(stage, buffered).1 == buffered.skip(
            buffered.len() - reading(stage, buffered).1.len(),
        ),
    decreases buffered.len(),
{
    crate::net::conn::lemma_front_line_shrinks(buffered);
    let left = reading(stage, buffered).1;
    if let LineView::Line(line, rest) = crate::net::conn::front_line(buffered) {
        assert(rest =~= buffered.skip(buffered.len() - rest.len()));
        match stage {
            StageView::Line => {
                if let Some(request) = begun(line) {
                    law_reading_leaves_the_rest(StageView::Headers(request), rest);
                }
            },
            StageView::Headers(request) => {
                if line.len() > 0 {
                    law_reading_leaves_the_rest(
                        StageView::Headers(with_line(request, line)),
                        rest,
                    );
                } else if let Some(n) = body_length(request.headers) {
                    law_reading_leaves_the_rest(StageView::Body(request, n), rest);
                }
            },
            StageView::Body(..) => {},
        }
    }
    assert(left =~= buffered.skip(buffered.len() - left.len()));
}

/// The result of reading a request from a client that sends `chunks`, one with each read, and
/// then ends; and the bytes that are left, buffered or still to come.
pub open spec fn request_over(stage: StageView, buffered: Seq<u8>, chunks: Seq<Seq<u8>>) -> (
    ReadingView,
    Seq<u8>,
)
    decreases chunks.len(),
{
    match reading(stage, buffered) {
        (ReadingView::More(next), rest) => if chunks.len() == 0 {
            reading_turn(next, rest, true)
        } else {
            request_over(next, rest + chunks[0], chunks.skip(1))
        },
        (done, rest) => (done, rest + chunks.flatten()),
    }
}

/// Which request is read, and what is left, depends on the bytes alone, not on the chunks in
/// which they arrive.
pub proof fn law_request_whatever_the_chunks(
    stage: StageView,
    buffered: Seq<u8>,
    chunks: Seq<Seq<u8>>,
)
    requires
        crate::net::conn::are_chunks(chunks),
    ensures
        request_over(stage, buffered, chunks) == request_over(
            stage,
            buffered + chunks.flatten(),
            Seq::empty(),
        ),
    decreases chunks.len(),
{
    let none = Seq::<Seq<u8>>::empty();
    let all = chunks.flatten();
    assert(none.flatten() =~= Seq::<u8>::empty());
    law_reading_resumes(stage, buffered, all);
    match reading(stage, buffered) {
        (ReadingView::More(next), rest) => {
            if chunks.len() == 0 {
                assert(chunks =~= none);
                assert(buffered + all =~= buffered);
            } else {
                law_request_whatever_the_chunks(next, rest + chunks[0], chunks.skip(1));
                assert(chunks.skip(1) =~= chunks.drop_first());
                assert(rest + chunks[0] + chunks.skip(1).flatten() =~= rest + all);
            }
        },
        (done, rest) => {
            assert(rest + all + none.flatten() =~= rest + all);
        },
    }
}

/// A header. Its name is kept as it was written, and in lower case to be found by.
pub struct HttpHeader {
    name: String,
    name_lower: String,
    value: String,
}

impl View for HttpHeader {
    type V = HeaderView;

    closed spec fn view(&self) -> HeaderView {
        HeaderView { name: self.name@, value: self.value@ }
    }
}

impl HttpHeader {
    #[verifier::type_invariant]
    spec fn lower_fits(self) -> bool {
        self.name_lower@ == crate::text::case::lowercase(self.name@)
    }

    /// A header with this name and this value.
    pub fn new(name: String, value: String) -> (header: Self)
        ensures
            header@ == (HeaderView { name: name@, value: value@ }),
    {
        let name_lower = to_lowercase(name.as_str());
        HttpHeader { name, name_lower, value }
    }

    /// The header that a line writes.
    pub fn parse(line: &str) -> (r: Option<Self>)
        ensures
            match r {
                Some(header) => header_of(line@) == Some(header@),
                None => header_of(line@) is None,
            },
    {
        match split_once(line, ':') {
            Some((name, value)) => Some(
                HttpHeader::new(trim(name.as_str()), trim(value.as_str())),
            ),
            None => None,
        }
    }

    /// The name as it was written.
    pub fn name(&self) -> (r: &str)
        ensures
            r@ == self@.name,
    {
        self.name.as_str()
    }

    /// The value.
    pub fn value(&self) -> (r: &str)
        ensures
            r@ == self@.value,
    {
        self.value.as_str()
    }

    /// The name in lower case.
    pub fn name_lower(&self) -> (r: &str)
        ensures
            r@ == crate::text::case::lowercase(self@.name),
    {
        proof {
            use_type_invariant(self);
        }
        self.name_lower.as_str()
    }
}

/// The views of a list of headers.
pub open spec fn header_views(headers: Seq<HttpHeader>) -> Seq<HeaderView> {
    Seq::new(headers.len(), |i: int| headers[i]@)
}

/// The value of the first header whose name in lower case is `key`.
fn find_value<'a>(headers: &'a Vec<HttpHeader>, key: &str) -> (r: Option<&'a str>)
    ensures
        match r {
            Some(value) => find_header(header_views(headers@), key@) == Some(value@),
            None => find_header(header_views(headers@), key@) is None,
        },
{
    let ghost all = header_views(headers@);
    let n: usize = headers.len();
    let mut i: usize = 0;
    assert(all.skip(0) =~= all);
    while i < n
        invariant
            n == headers.len(),
            i <= n,
            all == header_views(headers@),
            find_header(all, key@) == find_header(all.skip(i as int), key@),
        decreases n - i,
    {
        let header = &headers[i];
        assert(all.skip(i as int)[0] == header@);
        if same_text(header.name_lower(), key) {
            return Some(header.value());
        }
        assert(all.skip(i as int).skip(1) =~= all.skip(i + 1));
        i += 1;
    }
    None
}

/// A request.
pub struct HttpRequest {
    method: String,
    path: String,
    version: String,
    headers: Vec<HttpHeader>,
    body: Vec<u8>,
}

impl View for HttpRequest {
    type V = RequestView;

    closed spec fn view(&self) -> RequestView {
        RequestView {
            method: self.method@,
            path: self.path@,
            version: self.version@,
            headers: header_views(self.headers@),
            body: self.body@,
        }
    }
}

/// Whether a header goes on to the target: the headers between client and proxy do not.
pub open spec fn is_kept(header: HeaderView) -> bool {
    let name = crate::text::case::lowercase(header.name);
    !("proxy-"@.is_prefix_of(name)) && name != "connection"@
}

/// A header as a line.
pub open spec fn header_line(header: HeaderView) -> Seq<char> {
    header.name + ": "@ + header.value + "\r\n"@
}

/// The lines of the headers that go on to the target, in their order.
pub open spec fn kept_lines(headers: Seq<HeaderView>) -> Seq<char>
    decreases headers.len(),
{
    if headers.len() == 0 {
        Seq::empty()
    } else if is_kept(headers.last()) {
        kept_lines(headers.drop_last()) + header_line(headers.last())
    } else {
        kept_lines(headers.drop_last())
    }
}

/// What the target gets of a request before its body, where the target knows the path as
/// `relative`.
pub open spec fn outgoing_head(request: RequestView, relative: Seq<char>) -> Seq<char> {
    request.method + " "@ + relative + " "@ + request.version + "\r\n"@ + kept_lines(
        request.headers,
    ) + "Connection: close\r\n\r\n"@
}

/// The bytes that the target gets.
pub open spec fn outgoing(request: RequestView, relative: Seq<char>) -> Seq<u8> {
    encode_utf8(outgoing_head(request, relative)) + request.body
}

/// The target gets the headers that are not between client and proxy, all of them, in their order
/// and as they were written; the others make no difference to what it gets.
pub proof fn law_only_kept_headers_go_on(headers: Seq<HeaderView>)
    ensures
        kept_lines(headers) == headers.filter(|header: HeaderView| is_kept(header)).map_values(
            |header: HeaderView| header_line(header),
        ).flatten(),
    decreases headers.len(),
{
    let keep = |header: HeaderView| is_kept(header);
    let line = |header: HeaderView| header_line(header);
    reveal(Seq::filter);
    if headers.len() > 0 {
        let before = headers.drop_last();
        law_only_kept_headers_go_on(before);
        if is_kept(headers.last()) {
            let lines = before.filter(keep).map_values(line);
            assert(headers.filter(keep).map_values(line) =~= lines.push(line(headers.last())));
            lines.lemma_flatten_push(line(headers.last()));
        }
    } else {
        assert(headers.filter(keep).map_values(line) =~= Seq::empty());
    }
}

/// A login never reaches the target: a request goes on in the same bytes with and without it.
pub proof fn law_login_stays_here(
    request: RequestView,
    before: Seq<HeaderView>,
    login: HeaderView,
    after: Seq<HeaderView>,
    relative: Seq<char>,
)
    requires
        crate::text::case::lowercase(login.name) == "proxy-authorization"@,
    ensures
        outgoing(RequestView { headers: before.push(login) + after, ..request }, relative)
            == outgoing(RequestView { headers: before + after, ..request }, relative),
{
    assert(!is_kept(login)) by {
        reveal_strlit("proxy-");
        reveal_strlit("proxy-authorization");
        assert("proxy-"@ =~= "proxy-authorization"@.subrange(0, 6));
    }
    lemma_unkept(before, login, after);
}

proof fn lemma_unkept(before: Seq<HeaderView>, unkept: HeaderView, after: Seq<HeaderView>)
    requires
        !is_kept(unkept),
    ensures
        kept_lines(before.push(unkept) + after) == kept_lines(before + after),
    decreases after.len(),
{
    let with = before.push(unkept) + after;
    let without = before + after;
    if after.len() == 0 {
        assert(with =~= before.push(unkept));
        assert(without =~= before);
        assert(with.drop_last() =~= before);
    } else {
        lemma_unkept(before, unkept, after.drop_last());
        assert(with.drop_last() =~= before.push(unkept) + after.drop_last());
        assert(without.drop_last() =~= before + after.drop_last());
    }
}

impl HttpRequest {
    /// The method.
    pub fn method(&self) -> (r: &str)
        ensures
            r@ == self@.method,
    {
        self.method.as_str()
    }

    /// The path, as the client wrote it.
    pub fn path(&self) -> (r: &str)
        ensures
            r@ == self@.path,
    {
        self.path.as_str()
    }

    /// The protocol version.
    pub fn version(&self) -> (r: &str)
        ensures
            r@ == self@.version,
    {
        self.version.as_str()
    }

    /// The headers, in their order.
    pub fn headers(&self) -> (r: &Vec<HttpHeader>)
        ensures
            header_views(r@) == self@.headers,
    {
        &self.headers
    }

    /// The body.
    pub fn body(&self) -> (r: &Vec<u8>)
        ensures
            r@ == self@.body,
    {
        &self.body
    }

    /// The value of the first header with this name, whatever the case of either.
    pub fn get_header(&self, name: &str) -> (r: Option<&str>)
        ensures
            match r {
                Some(value) => find_header(self@.headers, crate::text::case::lowercase(name@))
                    == Some(value@),
                None => find_header(self@.headers, crate::text::case::lowercase(name@)) is None,
            },
    {
        let lower = to_lowercase(name);
        find_value(&self.headers, lower.as_str())
    }

    /// The bytes for the target, which knows the path as `relative`.
    pub fn to_target(&self, relative: &str) -> (r: Vec<u8>)
        ensures
            r@ == outgoing(self@, relative@),
    {
        let mut head = self.method.clone();
        head.append(" ");
        head.append(relative);
        head.append(" ");
        head.append(self.version.as_str());
        head.append("\r\n");
        let ghost first = head@;
        let ghost all = self@.headers;
        let n: usize = self.headers.len();
        let mut i: usize = 0;
        assert(all.take(0) =~= Seq::empty());
        assert(first + kept_lines(all.take(0)) =~= first);
        while i < n
            invariant
                n == self.headers.len(),
                i <= n,
                all == header_views(self.headers@),
                head@ == first + kept_lines(all.take(i as int)),
            decreases n - i,
        {
            let header = &self.headers[i];
            proof {
                assert(all.take(i + 1).drop_last() =~= all.take(i as int));
                assert(all.take(i + 1).last() == header@);
            }
            if !has_prefix(header.name_lower(), "proxy-") && !same_text(
                header.name_lower(),
                "connection",
            ) {
                head.append(header.name());
                head.append(": ");
                head.append(header.value());
                head.append("\r\n");
                assert(head@ =~= first + (kept_lines(all.take(i as int)) + header_line(header@)));
            }
            i += 1;
        }
        assert(all.take(n as int) =~= all);
        head.append("Connection: close\r\n\r\n");
        let mut data = head.as_str().as_bytes_vec();
        data.extend_from_slice(self.body.as_slice());
        assert(data@ =~= outgoing(self@, relative@));
        data
    }
}

/// The reading of a request from a client.
pub struct RequestReader {
    stage: Stage,
}

enum Stage {
    Line,
    Headers(HttpRequest),
    Body(HttpRequest, usize),
}

impl View for RequestReader {
    type V = StageView;

    closed spec fn view(&self) -> StageView {
        match self.stage {
            Stage::Line => StageView::Line,
            Stage::Headers(request) => StageView::Headers(request@),
            Stage::Body(request, n) => StageView::Body(request@, n as nat),
        }
    }
}

/// What a turn of reading comes to.
pub enum Reading {
    /// Read from the client and go on.
    More(RequestReader),
    /// The reading is over.
    Done(Result<HttpRequest, HttpProxyError>),
}

impl View for Reading {
    type V = ReadingView;

    open spec fn view(&self) -> ReadingView {
        match self {
            Reading::More(reader) => ReadingView::More(reader@),
            Reading::Done(Ok(request)) => ReadingView::Complete(request@),
            Reading::Done(Err(error)) => ReadingView::Failed(error@),
        }
    }
}

/// The request that the first line begins.
fn begin_request(line: &str) -> (r: Option<HttpRequest>)
    ensures
        match r {
            Some(request) => begun(line@) == Some(request@),
            None => begun(line@) is None,
        },
{
    let parts = split_whitespace(line);
    let ghost words = crate::text::scan::words(line@);
    assert(parts@.len() == words.len());
    if parts.len() < 3 {
        return None;
    }
    assert(parts@[0]@ == words[0] && parts@[1]@ == words[1] && parts@[2]@ == words[2]);
    let method = parts[0].clone();
    let path = parts[1].clone();
    let version = parts[2].clone();
    let request = HttpRequest { method, path, version, headers: Vec::new(), body: Vec::new() };
    assert(request@.headers =~= Seq::empty());
    Some(request)
}

/// Adds the header that `line` writes, where it writes one.
fn add_line(request: &mut HttpRequest, line: &str)
    ensures
        final(request)@ == with_line(old(request)@, line@),
{
    if let Some(header) = HttpHeader::parse(line) {
        request.headers.push(header);
        assert(request@.headers =~= old(request)@.headers.push(header@));
    }
}

/// How many bytes the body has.
fn length_of_body(request: &HttpRequest) -> (r: Option<usize>)
    ensures
        match r {
            Some(n) => body_length(request@.headers) == Some(n as nat),
            None => body_length(request@.headers) is None,
        },
{
    match find_value(&request.headers, "content-length") {
        None => Some(0),
        Some(value) => parse_usize(value),
    }
}

fn failed(error: ConnError) -> (r: Reading)
    ensures
        r@ == ReadingView::Failed(HttpErrorView::IoError(error@)),
{
    Reading::Done(Err(HttpProxyError::IoError(error)))
}

impl RequestReader {
    /// The reading of a request of which nothing has been read.
    pub fn new() -> (reader: Self)
        ensures
            reader@ == StageView::Line,
    {
        RequestReader { stage: Stage::Line }
    }

    /// Reads as far as the client's bytes go.
    pub fn parse_request<S>(self, conn: &mut BufferedConnection<S>, event: ReadEvent<'_>) -> (r:
        Reading)
        ensures
            (r@, final(conn)@) == reading_turn(
                self@,
                old(conn)@ + event.bytes(),
                event.is_end(),
            ),
            final(conn).same_link(old(conn)),
    {
        let ghost goal = reading_turn(self@, old(conn)@ + event.bytes(), event.is_end());
        let mut stage = self.stage;
        let mut news = event;
        loop
            invariant
                goal == reading_turn(self@, old(conn)@ + event.bytes(), event.is_end()),
                goal == reading_turn(
                    (RequestReader { stage })@,
                    conn@ + news.bytes(),
                    news.is_end(),
                ),
                conn.same_link(old(conn)),
            decreases (conn@ + news.bytes()).len(),
        {
            let ghost there = conn@ + news.bytes();
            proof {
                crate::net::conn::lemma_front_line_shrinks(there);
            }
            match stage {
                Stage::Line => {
                    match conn.read_line(news) {
                        Turn::Read => {
                            return Reading::More(RequestReader { stage: Stage::Line });
                        },
                        Turn::Done(Err(error)) => {
                            return failed(error);
                        },
                        Turn::Done(Ok(line)) => {
                            match begin_request(line.as_str()) {
                                None => {
                                    return Reading::Done(
                                        Err(
                                            HttpProxyError::InvalidRequest(
                                                "Invalid HTTP request line".to_owned(),
                                            ),
                                        ),
                                    );
                                },
                                Some(request) => {
                                    stage = Stage::Headers(request);
                                },
                            }
                        },
                    }
                },
                Stage::Headers(request) => {
                    match conn.read_line(news) {
                        Turn::Read => {
                            return Reading::More(RequestReader { stage: Stage::Headers(request) });
                        },
                        Turn::Done(Err(error)) => {
                            return failed(error);
                        },
                        Turn::Done(Ok(line)) => {
                            if line.as_str().is_empty() {
                                match length_of_body(&request) {
                                    None => {
                                        return Reading::Done(
                                            Err(
                                                HttpProxyError::InvalidRequest(
                                                    "Invalid Content-Length".to_owned(),
                                                ),
                                            ),
                                        );
                                    },
                                    Some(n) => {
                                        stage = Stage::Body(request, n);
                                    },
                                }
                            } else {
                                let mut request = request;
                                add_line(&mut request, line.as_str());
                                stage = Stage::Headers(request);
                            }
                        },
                    }
                },
                Stage::Body(request, n) => {
                    match conn.read_exact_bytes(n, news) {
                        Turn::Read => {
                            return Reading::More(RequestReader { stage: Stage::Body(request, n) });
                        },
                        Turn::Done(Err(error)) => {
                            return failed(error);
                        },
                        Turn::Done(Ok(body)) => {
                            let mut request = request;
                            request.body = body;
                            return Reading::Done(Ok(request));
                        },
                    }
                },
            }
            news = ReadEvent::Begin;
            assert(conn@ + news.bytes() =~= conn@);
        }
    }
}

} // verus!
