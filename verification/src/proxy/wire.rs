//! Requests as clients write them and as targets get them.

use vstd::prelude::*;
use vstd::utf8::{encode_utf8, valid_utf8};

use crate::net::conn::{
    front_line, law_line_is_there_with_its_end, law_sent_line_is_read, lemma_front_line,
    line_ends_at, ConnErrorView, LineView,
};
use crate::proxy::http::HttpErrorView;
use crate::proxy::request::{
    begun, body_length, find_header, header_line, header_of, header_views, is_kept, kept_lines,
    law_only_kept_headers_go_on, law_reading_resumes, outgoing, reading, reading_turn, with_line,
    HeaderView, HttpHeader, Reading, ReadingView, RequestView, StageView,
};
use crate::text::case::lowercase;
use crate::text::number::{decimal, law_written_number_is_read, parsed, with_zeros};
use crate::text::scan::{
    has_firm_ends, is_blank, is_space, law_text_is_cut_at_the_first, law_trimming_takes_blanks_off,
    law_words_stand_between_blanks, texts, words,
};
use crate::text::utf::{breaks_at, is_one_line, lemma_encode_break, lemma_encode_concat, utf8_error};

verus! {

/// Lines, each with its terminator.
pub open spec fn written(lines: Seq<Seq<char>>) -> Seq<char>
    decreases lines.len(),
{
    if lines.len() == 0 {
        Seq::empty()
    } else {
        lines[0] + seq!['\r', '\n'] + written(lines.skip(1))
    }
}

/// The headers that lines write, in their order; lines that write none left out.
pub open spec fn headers_in(lines: Seq<Seq<char>>) -> Seq<HeaderView>
    decreases lines.len(),
{
    if lines.len() == 0 {
        Seq::empty()
    } else {
        match header_of(lines[0]) {
            None => headers_in(lines.skip(1)),
            Some(header) => seq![header] + headers_in(lines.skip(1)),
        }
    }
}

/// Lines that can stand between the first line of a request and the empty line.
pub open spec fn are_lines(lines: Seq<Seq<char>>) -> bool {
    forall|i: int|
        0 <= i < lines.len() ==> (#[trigger] lines[i]).len() > 0 && is_one_line(lines[i])
}

/// The head of a request: its first line, the lines of its headers and an empty line.
pub open spec fn head(first: Seq<char>, lines: Seq<Seq<char>>) -> Seq<u8> {
    encode_utf8(first + seq!['\r', '\n'] + written(lines) + seq!['\r', '\n'])
}

proof fn lemma_front(line: Seq<char>, more: Seq<char>, tail: Seq<u8>)
    requires
        is_one_line(line),
    ensures
        front_line(encode_utf8(line + seq!['\r', '\n'] + more) + tail) == LineView::Line(
            line,
            encode_utf8(more) + tail,
        ),
{
    let two = seq!['\r', '\n'];
    lemma_encode_break();
    lemma_encode_concat(line + two, more);
    lemma_encode_concat(line, two);
    let behind = encode_utf8(more) + tail;
    assert(encode_utf8(line + two + more) + tail =~= encode_utf8(line) + seq![13u8, 10u8] + behind);
    law_sent_line_is_read(line, behind);
}

/// Reading header lines and the empty line behind them.
proof fn lemma_lines_are_read(request: RequestView, lines: Seq<Seq<char>>, tail: Seq<u8>)
    requires
        are_lines(lines),
    ensures
        ({
            let all = encode_utf8(written(lines) + seq!['\r', '\n']) + tail;
            let next = RequestView { headers: request.headers + headers_in(lines), ..request };
            reading(StageView::Headers(request), all) == match body_length(next.headers) {
                None => (
                    ReadingView::Failed(HttpErrorView::InvalidRequest("Invalid Content-Length"@)),
                    tail,
                ),
                Some(n) => reading(StageView::Body(next, n), tail),
            }
        }),
    decreases lines.len(),
{
    let two = seq!['\r', '\n'];
    let none = Seq::<char>::empty();
    let all = encode_utf8(written(lines) + two) + tail;
    if lines.len() == 0 {
        assert(written(lines) + two =~= none + two + none);
        lemma_front(none, none, tail);
        assert(encode_utf8(none) + tail =~= tail);
        assert(request.headers + headers_in(lines) =~= request.headers);
    } else {
        let line = lines[0];
        let rest = lines.skip(1);
        let more = written(rest) + two;
        assert(written(lines) + two =~= line + two + more);
        assert(line.len() > 0 && is_one_line(line));
        lemma_front(line, more, tail);
        crate::net::conn::lemma_front_line_shrinks(all);
        let next = with_line(request, line);
        assert forall|i: int| 0 <= i < rest.len() implies (#[trigger] rest[i]).len() > 0
            && is_one_line(rest[i]) by {
            assert(rest[i] == lines[i + 1]);
        }
        lemma_lines_are_read(next, rest, tail);
        assert(next.headers + headers_in(rest) =~= request.headers + headers_in(lines));
    }
}

/// A request is read as it was written: method, path and version are the first three words of the
/// first line, the headers are those of the lines in their order, and the body is as many bytes as
/// the first `content-length` header says, or none. What is behind the request stays. A first line
/// of less than three words, and a length that is no number, are refused.
pub proof fn law_written_request_is_read(
    first: Seq<char>,
    lines: Seq<Seq<char>>,
    body: Seq<u8>,
    behind: Seq<u8>,
)
    requires
        is_one_line(first),
        are_lines(lines),
    ensures
        ({
            let (result, left) = reading(StageView::Line, head(first, lines) + body + behind);
            let found = words(first);
            let headers = headers_in(lines);
            if found.len() < 3 {
                result == ReadingView::Failed(
                    HttpErrorView::InvalidRequest("Invalid HTTP request line"@),
                )
            } else {
                match find_header(headers, "content-length"@) {
                    None => result == ReadingView::Complete(
                        RequestView {
                            method: found[0],
                            path: found[1],
                            version: found[2],
                            headers,
                            body: Seq::empty(),
                        },
                    ) && left == body + behind,
                    Some(value) => match parsed(value) {
                        None => result == ReadingView::Failed(
                            HttpErrorView::InvalidRequest("Invalid Content-Length"@),
                        ),
                        Some(n) => body.len() == n ==> result == ReadingView::Complete(
                            RequestView {
                                method: found[0],
                                path: found[1],
                                version: found[2],
                                headers,
                                body,
                            },
                        ) && left == behind,
                    },
                }
            }
        }),
{
    let two = seq!['\r', '\n'];
    let tail = body + behind;
    let all = head(first, lines) + body + behind;
    let more = written(lines) + two;
    assert(first + two + written(lines) + two =~= first + two + more);
    assert(all =~= head(first, lines) + tail);
    lemma_front(first, more, tail);
    crate::net::conn::lemma_front_line_shrinks(all);
    if words(first).len() >= 3 {
        let begin = begun(first)->0;
        lemma_lines_are_read(begin, lines, tail);
        assert(begin.headers + headers_in(lines) =~= headers_in(lines));
        let next = RequestView { headers: headers_in(lines), ..begin };
        assert(tail.take(0) =~= Seq::<u8>::empty());
        assert(tail.skip(0) =~= tail);
        assert(tail.take(body.len() as int) =~= body);
        assert(tail.skip(body.len() as int) =~= behind);
        if let Some(value) = find_header(headers_in(lines), "content-length"@) {
            if let Some(n) = parsed(value) {
                assert(body_length(next.headers) == Some(n as nat));
            }
        } else {
            assert(body_length(next.headers) == Some(0nat));
        }
    }
}

/// The body is as long as was announced, for every length: behind a head of which the first header
/// called `content-length`, in letters of any case, holds a number in decimal, that many bytes are
/// the body. All of them are, and nothing behind them is.
pub proof fn law_body_is_as_long_as_announced(
    first: Seq<char>,
    before: Seq<Seq<char>>,
    name: Seq<char>,
    after: Seq<Seq<char>>,
    body: Seq<u8>,
    behind: Seq<u8>,
)
    requires
        is_one_line(first),
        words(first).len() >= 3,
        are_lines(before),
        are_lines(after),
        lowercase(name) == "content-length"@,
        !name.contains(':'),
        has_firm_ends(name),
        is_one_line(name),
        forall|i: int|
            0 <= i < headers_in(before).len() ==> lowercase((#[trigger] headers_in(before)[i]).name)
                != "content-length"@,
        body.len() <= usize::MAX,
    ensures
        ({
            let lines = before.push(name + seq![':', ' '] + decimal(body.len())) + after;
            let (result, left) = reading(StageView::Line, head(first, lines) + body + behind);
            &&& result matches ReadingView::Complete(request) && request.body == body
            &&& left == behind
        }),
{
    let n = body.len();
    let none = Seq::<char>::empty();
    let line = name + seq![':', ' '] + decimal(n);
    let lines = before.push(line) + after;
    law_written_number_is_read(0, n);
    assert(with_zeros(0, n) =~= decimal(n));
    lemma_decimal_ends(n);
    law_header_is_what_a_line_writes(none, name, none, seq![' '], decimal(n), none);
    assert(none + name + none + seq![':'] + seq![' '] + decimal(n) + none =~= line);
    let header = HeaderView { name, value: decimal(n) };
    crate::text::number::law_decimal_has_the_digits(n);
    assert forall|i: int| !breaks_at(line, i) by {
        if breaks_at(line, i) {
            let m = name.len() as int;
            if i + 1 < m {
                assert(breaks_at(name, i));
            } else if i >= m + 2 {
                assert(line[i] == decimal(n)[i - m - 2]);
                assert(48 <= decimal(n)[i - m - 2] as u32 <= 57);
            }
        }
    }
    assert(are_lines(lines)) by {
        assert forall|i: int| 0 <= i < lines.len() implies (#[trigger] lines[i]).len() > 0
            && is_one_line(lines[i]) by {
            if i < before.len() {
                assert(lines[i] == before[i]);
            } else if i == before.len() {
                assert(lines[i] == line);
            } else {
                assert(lines[i] == after[i - before.len() - 1]);
            }
        }
    }
    lemma_headers_in_concat(before.push(line), after);
    lemma_headers_in_concat(before, seq![line]);
    assert(before.push(line) =~= before + seq![line]);
    assert(seq![line].skip(1) =~= Seq::empty());
    reveal_with_fuel(headers_in, 2);
    assert(headers_in(seq![line]) =~= seq![header]);
    let headers = headers_in(lines);
    let at = headers_in(before).len() as int;
    assert(headers[at] == header);
    assert forall|j: int| 0 <= j < at implies lowercase((#[trigger] headers[j]).name)
        != "content-length"@ by {
        assert(headers[j] == headers_in(before)[j]);
    }
    law_first_header_of_a_name_is_found(headers, "content-length"@, at);
    law_written_request_is_read(first, lines, body, behind);
}

proof fn lemma_decimal_ends(n: nat)
    ensures
        has_firm_ends(decimal(n)),
{
    crate::text::number::law_decimal_has_the_digits(n);
    let s = decimal(n);
    assert(48 <= s[0] as u32 <= 57);
    assert(48 <= s[s.len() - 1] as u32 <= 57);
}

proof fn lemma_headers_in_concat(a: Seq<Seq<char>>, b: Seq<Seq<char>>)
    ensures
        headers_in(a + b) == headers_in(a) + headers_in(b),
    decreases a.len(),
{
    if a.len() == 0 {
        assert(a + b =~= b);
        assert(headers_in(a) + headers_in(b) =~= headers_in(b));
    } else {
        lemma_headers_in_concat(a.skip(1), b);
        assert((a + b).skip(1) =~= a.skip(1) + b);
        assert(headers_in(a + b) =~= headers_in(a) + headers_in(b));
    }
}

/// The first line gives method, path and version, whatever white space stands around them and
/// whatever follows; with less than three words it gives nothing.
pub proof fn law_first_line_has_three_words(
    a: Seq<char>,
    method: Seq<char>,
    b: Seq<char>,
    path: Seq<char>,
    c: Seq<char>,
    version: Seq<char>,
    rest: Seq<char>,
)
    requires
        is_blank(a),
        is_blank(b) && b.len() > 0,
        is_blank(c) && c.len() > 0,
        method.len() > 0 && forall|i: int| 0 <= i < method.len() ==> !is_space(#[trigger] method[i]),
        path.len() > 0 && forall|i: int| 0 <= i < path.len() ==> !is_space(#[trigger] path[i]),
        version.len() > 0 && forall|i: int|
            0 <= i < version.len() ==> !is_space(#[trigger] version[i]),
        rest.len() > 0 ==> is_space(rest[0]),
    ensures
        begun(a + method + b + path + c + version + rest) == Some(
            RequestView {
                method,
                path,
                version,
                headers: Seq::empty(),
                body: Seq::empty(),
            },
        ),
        begun(a) is None,
        begun(a + method) is None,
        begun(a + method + b) is None,
        begun(a + method + b + path) is None,
        begun(a + method + b + path + c) is None,
{
    let none = Seq::<char>::empty();
    assert(is_space(b[0]) && is_space(c[0]));
    law_words_stand_between_blanks(c, version, rest);
    law_words_stand_between_blanks(b, path, c + version + rest);
    law_words_stand_between_blanks(b, path, none);
    law_words_stand_between_blanks(b, path, c);
    law_words_stand_between_blanks(a, method, b + path + (c + version + rest));
    assert(a + method + b + path + c + version + rest =~= a + method + (b + path + (c + version
        + rest)));
    law_words_stand_between_blanks(a, method, none);
    assert(a + method + none =~= a + method);
    law_words_stand_between_blanks(a, method, b);
    law_words_stand_between_blanks(a, method, b + path + none);
    assert(a + method + (b + path + none) =~= a + method + b + path);
    law_words_stand_between_blanks(a, method, b + path + c);
    assert(a + method + (b + path + c) =~= a + method + b + path + c);
    law_words_stand_between_blanks(none, method, none);
    let w = words(a + method + b + path + c + version + rest);
    assert(w =~= seq![method, path, version] + words(rest));
}

/// A header is the text around the first colon of a line, without the white space around either
/// part and otherwise as it was written. A line without a colon writes none.
pub proof fn law_header_is_what_a_line_writes(
    a: Seq<char>,
    name: Seq<char>,
    b: Seq<char>,
    c: Seq<char>,
    value: Seq<char>,
    d: Seq<char>,
)
    requires
        is_blank(a),
        is_blank(b),
        is_blank(c),
        is_blank(d),
        !name.contains(':'),
        has_firm_ends(name),
        has_firm_ends(value),
    ensures
        header_of(a + name + b + seq![':'] + c + value + d) == Some(HeaderView { name, value }),
        header_of(name) is None,
{
    let left = a + name + b;
    let right = c + value + d;
    assert(!left.contains(':')) by {
        if left.contains(':') {
            let i = choose|i: int| 0 <= i < left.len() && left[i] == ':';
            if i < a.len() {
                assert(is_space(a[i]));
            } else if i < a.len() + name.len() {
                assert(name[i - a.len()] == ':');
                assert(name.contains(':'));
            } else {
                assert(is_space(b[i - a.len() - name.len()]));
            }
        }
    }
    law_text_is_cut_at_the_first(left, ':', right);
    law_text_is_cut_at_the_first(name, ':', right);
    assert(a + name + b + seq![':'] + c + value + d =~= left + seq![':'] + right);
    law_trimming_takes_blanks_off(a, name, b);
    law_trimming_takes_blanks_off(c, value, d);
}

/// The header that is found is the first with that name in lower case; where none has it, none is
/// found.
pub proof fn law_first_header_of_a_name_is_found(headers: Seq<HeaderView>, key: Seq<char>, i: int)
    ensures
        0 <= i < headers.len() && lowercase(headers[i].name) == key && (forall|j: int|
            0 <= j < i ==> lowercase((#[trigger] headers[j]).name) != key) ==> find_header(
            headers,
            key,
        ) == Some(headers[i].value),
        (forall|j: int|
            0 <= j < headers.len() ==> lowercase((#[trigger] headers[j]).name) != key)
            ==> find_header(headers, key) is None,
    decreases headers.len(),
{
    if headers.len() > 0 {
        let rest = headers.skip(1);
        law_first_header_of_a_name_is_found(rest, key, i - 1);
        if i > 0 && i < headers.len() && (forall|j: int|
            0 <= j < i ==> lowercase((#[trigger] headers[j]).name) != key) {
            assert(lowercase(headers[0].name) != key);
            assert(rest[i - 1] == headers[i]);
            assert forall|j: int| 0 <= j < i - 1 implies lowercase((#[trigger] rest[j]).name)
                != key by {
                assert(rest[j] == headers[j + 1]);
            }
        }
        if forall|j: int|
            0 <= j < headers.len() ==> lowercase((#[trigger] headers[j]).name) != key {
            assert(lowercase(headers[0].name) != key);
            assert forall|j: int| 0 <= j < rest.len() implies lowercase((#[trigger] rest[j]).name)
                != key by {
                assert(rest[j] == headers[j + 1]);
            }
        }
    }
}

/// Names are compared letter by letter, with `A` to `Z` as good as `a` to `z`.
pub proof fn law_lower_case_of_ascii(s: Seq<char>, i: int)
    requires
        vstd::utf8::is_ascii_chars(s),
        0 <= i < s.len(),
    ensures
        lowercase(s).len() == s.len(),
        'A' <= s[i] <= 'Z' ==> lowercase(s)[i] as u32 == s[i] as u32 + 32,
        !('A' <= s[i] <= 'Z') ==> lowercase(s)[i] == s[i],
{
}

/// A part of a request is not enough: until its last byte is there, more has to be read.
pub proof fn law_part_of_a_request_is_not_enough(
    part: Seq<u8>,
    missing: Seq<u8>,
    request: RequestView,
)
    requires
        missing.len() > 0,
        reading(StageView::Line, part + missing) == (
            ReadingView::Complete(request),
            Seq::<u8>::empty(),
        ),
    ensures
        reading(StageView::Line, part).0 is More,
{
    law_reading_resumes(StageView::Line, part, missing);
    let (result, rest) = reading(StageView::Line, part);
    assert((rest + missing).len() > 0);
}

/// A line that is not UTF-8 is refused, and stays.
pub proof fn law_malformed_line_is_refused(
    stage: StageView,
    line: Seq<u8>,
    behind: Seq<u8>,
)
    requires
        stage !is Body,
        !valid_utf8(line),
        line_ends_at(line + seq![13u8, 10u8] + behind, line.len() as int),
    ensures
        reading(stage, line + seq![13u8, 10u8] + behind) == (
            ReadingView::Failed(
                HttpErrorView::IoError(ConnErrorView::InvalidLine(utf8_error(line))),
            ),
            line + seq![13u8, 10u8] + behind,
        ),
{
    let all = line + seq![13u8, 10u8] + behind;
    lemma_front_line(all, line.len() as int);
    assert(all.take(line.len() as int) =~= line);
}

/// A client that ends while its request is read is an error, which says whether the end came in
/// the body or before it. Nothing is taken. Without an end, reading goes on.
pub proof fn law_early_end_is_an_error(
    request: RequestView,
    n: nat,
    buffered: Seq<u8>,
    stage: StageView,
)
    ensures
        reading_turn(StageView::Line, buffered, true) == (
            ReadingView::Failed(HttpErrorView::IoError(ConnErrorView::ClosedBeforeLineEnd)),
            buffered,
        ),
        reading_turn(StageView::Headers(request), buffered, true) == (
            ReadingView::Failed(HttpErrorView::IoError(ConnErrorView::ClosedBeforeLineEnd)),
            buffered,
        ),
        reading_turn(StageView::Body(request, n), buffered, true) == (
            ReadingView::Failed(HttpErrorView::IoError(ConnErrorView::ConnectionClosed)),
            buffered,
        ),
        reading_turn(stage, buffered, false) == reading(stage, buffered),
{
}

/// How far the reading has come tells what is missing: without a line terminator a line is, and
/// behind the head the rest of the body.
pub proof fn law_what_is_missing(stage: StageView, buffered: Seq<u8>, request: RequestView, n: nat)
    ensures
        stage !is Body && (forall|i: int| !crate::net::conn::crlf_at(buffered, i)) ==> reading(
            stage,
            buffered,
        ) == (ReadingView::More(stage), buffered),
        buffered.len() < n ==> reading(StageView::Body(request, n), buffered) == (
            ReadingView::More(StageView::Body(request, n)),
            buffered,
        ),
{
    law_line_is_there_with_its_end(buffered);
}

/// What a target gets of a request: its method, the path as the target knows it and its version;
/// then every header whose name, in lower case, neither begins with `proxy-` nor is `connection`,
/// each on a line of its own, in their order, with name and value as they were written; then
/// `Connection: close` and an empty line; then the body.
pub proof fn law_bytes_for_the_target(request: RequestView, relative: Seq<char>)
    ensures
        outgoing(request, relative) == encode_utf8(
            request.method + " "@ + relative + " "@ + request.version + "\r\n"@
                + request.headers.filter(
                |header: HeaderView|
                    !("proxy-"@.is_prefix_of(lowercase(header.name))) && lowercase(header.name)
                        != "connection"@,
            ).map_values(
                |header: HeaderView| header.name + ": "@ + header.value + "\r\n"@,
            ).flatten() + "Connection: close\r\n\r\n"@,
        ) + request.body,
{
    let keep = |header: HeaderView| is_kept(header);
    let named = |header: HeaderView|
        !("proxy-"@.is_prefix_of(lowercase(header.name))) && lowercase(header.name)
            != "connection"@;
    let line = |header: HeaderView| header_line(header);
    let spelled = |header: HeaderView| header.name + ": "@ + header.value + "\r\n"@;
    assert(keep =~= named);
    assert(line =~= spelled);
    law_only_kept_headers_go_on(request.headers);
    assert(kept_lines(request.headers) == request.headers.filter(named).map_values(
        spelled,
    ).flatten());
}

/// The views of headers and of texts are those of each, in their order; a reading's view has what
/// the reading holds.
pub proof fn law_views_keep_the_order(
    headers: Seq<HttpHeader>,
    strings: Seq<String>,
    i: int,
    reading: Reading,
)
    ensures
        header_views(headers).len() == headers.len(),
        0 <= i < headers.len() ==> header_views(headers)[i] == headers[i]@,
        texts(strings).len() == strings.len(),
        0 <= i < strings.len() ==> texts(strings)[i] == strings[i]@,
        match reading {
            Reading::More(reader) => reading@ == ReadingView::More(reader@),
            Reading::Done(Ok(request)) => reading@ == ReadingView::Complete(request@),
            Reading::Done(Err(error)) => reading@ == ReadingView::Failed(error@),
        },
{
}

} // verus!
