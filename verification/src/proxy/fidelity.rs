//! What a target reads is what the client sent.

use vstd::prelude::*;
use vstd::utf8::encode_utf8;

use crate::net::conn::{front_line, law_read_line_is_one_line, law_sent_line_is_read, LineView};
use crate::proxy::request::{
    begun, body_length, find_header, header_line, header_of, is_kept, law_only_kept_headers_go_on,
    outgoing, outgoing_head, reading, with_line, HeaderView, ReadingView, RequestView, StageView,
};
use crate::text::case::lowercase;
use crate::text::scan::{
    is_space, is_word, lemma_split_at_char, lemma_split_at_char_is, lemma_trimmed_after_space,
    lemma_trimmed_again, lemma_trimmed_part, lemma_words_are_words, lemma_words_of_three, trimmed,
    words,
};
use crate::text::utf::{breaks_at, is_one_line, lemma_encode_break, lemma_encode_concat};

verus! {

/// A header that a line can write: trimmed, on one line, and with no colon in its name.
pub open spec fn is_header(header: HeaderView) -> bool {
    &&& !header.name.contains(':')
    &&& trimmed(header.name) == header.name
    &&& trimmed(header.value) == header.value
    &&& is_one_line(header.name)
    &&& is_one_line(header.value)
}

/// Headers that lines can write.
pub open spec fn are_headers(headers: Seq<HeaderView>) -> bool {
    forall|i: int| 0 <= i < headers.len() ==> is_header(#[trigger] headers[i])
}

/// A request of which the head makes sense.
pub open spec fn has_sound_head(request: RequestView) -> bool {
    &&& is_word(request.method)
    &&& is_word(request.path)
    &&& is_word(request.version)
    &&& are_headers(request.headers)
}

/// A request that a client can send: its head makes sense, and its headers say how long its body
/// is.
pub open spec fn is_sound(request: RequestView) -> bool {
    has_sound_head(request) && body_length(request.headers) == Some(request.body.len())
}

/// What has been read so far makes sense.
pub open spec fn is_sound_stage(stage: StageView) -> bool {
    match stage {
        StageView::Line => true,
        StageView::Headers(request) => has_sound_head(request),
        StageView::Body(request, n) => has_sound_head(request) && body_length(request.headers)
            == Some(n),
    }
}

proof fn lemma_part_is_one_line(s: Seq<char>, a: int, b: int)
    requires
        is_one_line(s),
        0 <= a <= b <= s.len(),
    ensures
        is_one_line(s.subrange(a, b)),
{
    let t = s.subrange(a, b);
    assert forall|i: int| !breaks_at(t, i) by {
        assert(!breaks_at(s, a + i));
    }
}

/// A line writes headers that a line can write.
proof fn lemma_header_of_is_header(line: Seq<char>)
    requires
        is_one_line(line),
    ensures
        header_of(line) matches Some(header) ==> is_header(header),
{
    lemma_split_at_char(line, ':');
    if let Some((name, value)) = crate::text::scan::split_at_char(line, ':') {
        let n = lemma_trimmed_part(name);
        let v = lemma_trimmed_part(value);
        lemma_trimmed_again(name);
        lemma_trimmed_again(value);
        let at = name.len() as int;
        assert(name =~= line.subrange(0, at));
        assert(value =~= line.subrange(at + 1, line.len() as int));
        lemma_part_is_one_line(line, 0, at);
        lemma_part_is_one_line(line, at + 1, line.len() as int);
        lemma_part_is_one_line(name, n.0, n.1);
        lemma_part_is_one_line(value, v.0, v.1);
        let t = trimmed(name);
        assert forall|i: int| 0 <= i < t.len() implies t[i] != ':' by {
            assert(t[i] == name[n.0 + i]);
            assert(name.contains(name[n.0 + i]));
        }
    }
}

/// A header that a line can write is the one that its line writes.
proof fn lemma_written_header(header: HeaderView)
    requires
        is_header(header),
    ensures
        header_of(header.name + ": "@ + header.value) == Some(header),
        is_one_line(header.name + ": "@ + header.value),
        (header.name + ": "@ + header.value).len() > 0,
{
    reveal_strlit(": ");
    let line = header.name + ": "@ + header.value;
    let tail = seq![' '] + header.value;
    assert(line =~= header.name + seq![':'] + tail);
    lemma_split_at_char_is(header.name, ':', tail);
    lemma_trimmed_after_space(header.value);
    let n = header.name.len() as int;
    assert forall|i: int| !breaks_at(line, i) by {
        if breaks_at(line, i) {
            if i + 1 < n {
                assert(breaks_at(header.name, i));
            } else if i >= n + 2 {
                assert(breaks_at(header.value, i - n - 2));
            }
        }
    }
}

/// The lines of headers, one after the other.
spec fn lines_of(headers: Seq<HeaderView>) -> Seq<char> {
    headers.map_values(|header: HeaderView| header_line(header)).flatten()
}

/// The bytes of a line with its terminator.
proof fn lemma_line_bytes(line: Seq<char>, more: Seq<char>)
    ensures
        encode_utf8(line + "\r\n"@ + more) == encode_utf8(line) + seq![13u8, 10u8] + encode_utf8(
            more,
        ),
{
    reveal_strlit("\r\n");
    assert("\r\n"@ =~= seq!['\r', '\n']);
    lemma_encode_break();
    lemma_encode_concat(line + "\r\n"@, more);
    lemma_encode_concat(line, "\r\n"@);
}

/// Reading the lines of headers and the empty line behind them.
proof fn lemma_headers_read_back(request: RequestView, headers: Seq<HeaderView>, tail: Seq<u8>)
    requires
        are_headers(headers),
        body_length(request.headers + headers) is Some,
    ensures
        reading(
            StageView::Headers(request),
            encode_utf8(lines_of(headers) + "\r\n"@) + tail,
        ) == reading(
            StageView::Body(
                RequestView { headers: request.headers + headers, ..request },
                body_length(request.headers + headers)->0,
            ),
            tail,
        ),
    decreases headers.len(),
{
    let none = Seq::<char>::empty();
    let whole = encode_utf8(lines_of(headers) + "\r\n"@) + tail;
    let line_fn = |header: HeaderView| header_line(header);
    if headers.len() == 0 {
        assert(headers.map_values(line_fn) =~= Seq::empty());
        assert(lines_of(headers) =~= none);
        lemma_line_bytes(none, none);
        assert(lines_of(headers) + "\r\n"@ =~= none + "\r\n"@ + none);
        assert(encode_utf8(none) =~= Seq::<u8>::empty());
        assert(whole =~= encode_utf8(none) + seq![13u8, 10u8] + tail);
        law_sent_line_is_read(none, tail);
        assert(request.headers + headers =~= request.headers);
    } else {
        let header = headers[0];
        let rest = headers.drop_first();
        let line = header.name + ": "@ + header.value;
        lemma_written_header(header);
        assert(headers.map_values(line_fn).drop_first() =~= rest.map_values(line_fn));
        assert(lines_of(headers) =~= header_line(header) + lines_of(rest));
        let more = lines_of(rest) + "\r\n"@;
        assert(lines_of(headers) + "\r\n"@ =~= line + "\r\n"@ + more);
        lemma_line_bytes(line, more);
        let behind = encode_utf8(more) + tail;
        assert(whole =~= encode_utf8(line) + seq![13u8, 10u8] + behind);
        law_sent_line_is_read(line, behind);
        let next = with_line(request, line);
        assert(next.headers + rest =~= request.headers + headers);
        assert forall|i: int| 0 <= i < rest.len() implies is_header(#[trigger] rest[i]) by {
            assert(rest[i] == headers[i + 1]);
        }
        lemma_headers_read_back(next, rest, tail);
    }
}

/// Finding a header in headers with one more behind them.
proof fn lemma_find_header_push(headers: Seq<HeaderView>, last: HeaderView, key: Seq<char>)
    ensures
        find_header(headers.push(last), key) == match find_header(headers, key) {
            Some(value) => Some(value),
            None => if lowercase(last.name) == key {
                Some(last.value)
            } else {
                None
            },
        },
    decreases headers.len(),
{
    let all = headers.push(last);
    if headers.len() == 0 {
        reveal_with_fuel(find_header, 2);
    } else {
        lemma_find_header_push(headers.skip(1), last, key);
        assert(all.skip(1) =~= headers.skip(1).push(last));
    }
}

/// The headers that go on say the same of the body.
proof fn lemma_kept_say_the_same(headers: Seq<HeaderView>)
    ensures
        find_header(headers.filter(|header: HeaderView| is_kept(header)), "content-length"@)
            == find_header(headers, "content-length"@),
    decreases headers.len(),
{
    let keep = |header: HeaderView| is_kept(header);
    reveal(Seq::filter);
    if headers.len() > 0 {
        let before = headers.drop_last();
        let last = headers.last();
        lemma_kept_say_the_same(before);
        lemma_find_header_push(before, last, "content-length"@);
        lemma_find_header_push(before.filter(keep), last, "content-length"@);
        assert(headers =~= before.push(last));
        if !is_kept(last) {
            assert(lowercase(last.name) != "content-length"@) by {
                reveal_strlit("proxy-");
                reveal_strlit("connection");
                reveal_strlit("content-length");
                if lowercase(last.name) == "content-length"@ {
                    assert("proxy-"@[0] != "content-length"@[0]);
                    assert("connection"@.len() != "content-length"@.len());
                }
            }
        }
    }
}

/// The header with which a target is told that the connection ends.
pub open spec fn closing() -> HeaderView {
    HeaderView { name: "Connection"@, value: "close"@ }
}

proof fn lemma_closing()
    ensures
        is_header(closing()),
        lowercase(closing().name) != "content-length"@,
        "Connection: close\r\n\r\n"@ == header_line(closing()) + "\r\n"@,
{
    reveal_strlit("Connection");
    reveal_strlit("close");
    reveal_strlit("content-length");
    reveal_strlit("Connection: close\r\n\r\n");
    reveal_strlit(": ");
    reveal_strlit("\r\n");
    let name = "Connection"@;
    let value = "close"@;
    assert("Connection: close\r\n\r\n"@ =~= header_line(closing()) + "\r\n"@);
    assert(lowercase(name).len() == 10);
    assert(!name.contains(':'));
    assert(!is_space(name[0]) && !is_space(name.last()));
    assert(!is_space(value[0]) && !is_space(value.last()));
    assert forall|i: int| !breaks_at(name, i) by {}
    assert forall|i: int| !breaks_at(value, i) by {}
}

/// What the target of a request gets reads as a request again: the same method, version and body,
/// the path as the target knows it, and every header whose name, in lower case, neither begins
/// with `proxy-` nor is `connection`, in their order, with `Connection: close` behind them.
pub proof fn law_target_reads_the_request(
    request: RequestView,
    relative: Seq<char>,
    behind: Seq<u8>,
)
    requires
        is_sound(request),
        is_word(relative),
    ensures
        reading(StageView::Line, outgoing(request, relative) + behind) == (
            ReadingView::Complete(
                RequestView {
                    path: relative,
                    headers: request.headers.filter(
                        |header: HeaderView|
                            !("proxy-"@.is_prefix_of(lowercase(header.name))) && lowercase(
                                header.name,
                            ) != "connection"@,
                    ).push(HeaderView { name: "Connection"@, value: "close"@ }),
                    ..request
                },
            ),
            behind,
        ),
{
    let keep = |header: HeaderView| is_kept(header);
    let named = |header: HeaderView|
        !("proxy-"@.is_prefix_of(lowercase(header.name))) && lowercase(header.name)
            != "connection"@;
    assert(keep =~= named);
    let kept = request.headers.filter(keep);
    let sent = kept.push(closing());
    let tail = request.body + behind;
    let line_fn = |header: HeaderView| header_line(header);
    let whole = outgoing(request, relative) + behind;
    // The first line.
    reveal_strlit(" ");
    assert(" "@ =~= seq![' ']);
    let line = request.method + " "@ + relative + " "@ + request.version;
    lemma_words_of_three(request.method, relative, request.version);
    assert(is_one_line(line)) by {
        assert forall|i: int| !breaks_at(line, i) by {
            if breaks_at(line, i) {
                assert(is_space('\r'));
                let m = request.method.len() as int;
                let p = relative.len() as int;
                if i < m {
                    assert(!is_space(request.method[i]));
                } else if m < i && i < m + 1 + p {
                    assert(!is_space(relative[i - m - 1]));
                } else if i > m + 1 + p {
                    assert(!is_space(request.version[i - m - p - 2]));
                }
            }
        }
    }
    // The headers.
    law_only_kept_headers_go_on(request.headers);
    lemma_closing();
    kept.map_values(line_fn).lemma_flatten_push(header_line(closing()));
    assert(sent.map_values(line_fn) =~= kept.map_values(line_fn).push(header_line(closing())));
    let more = lines_of(sent) + "\r\n"@;
    assert(outgoing_head(request, relative) =~= line + "\r\n"@ + more);
    lemma_line_bytes(line, more);
    let rest = encode_utf8(more) + tail;
    assert(whole =~= encode_utf8(line) + seq![13u8, 10u8] + rest);
    law_sent_line_is_read(line, rest);
    let first = RequestView {
        method: request.method,
        path: relative,
        version: request.version,
        headers: Seq::empty(),
        body: Seq::empty(),
    };
    assert(begun(line) == Some(first));
    // The length of the body.
    lemma_kept_say_the_same(request.headers);
    lemma_find_header_push(kept, closing(), "content-length"@);
    assert(first.headers + sent =~= sent);
    assert(are_headers(sent)) by {
        assert forall|i: int| 0 <= i < sent.len() implies is_header(#[trigger] sent[i]) by {
            if i < kept.len() {
                request.headers.lemma_filter_contains_rev(keep, kept[i]);
                let k = choose|k: int|
                    0 <= k < request.headers.len() && request.headers[k] == kept[i];
                assert(is_header(request.headers[k]));
            }
        }
    }
    lemma_headers_read_back(first, sent, tail);
    // The body.
    let n = request.body.len() as int;
    assert(tail.take(n) =~= request.body);
    assert(tail.skip(n) =~= behind);
}

/// Every request that is read is one that a client can send.
pub proof fn law_read_request_is_sound(stage: StageView, buffered: Seq<u8>)
    requires
        is_sound_stage(stage),
    ensures
        match reading(stage, buffered).0 {
            ReadingView::Complete(request) => is_sound(request),
            ReadingView::More(next) => is_sound_stage(next),
            ReadingView::Failed(_) => true,
        },
    decreases buffered.len(),
{
    crate::net::conn::lemma_front_line_shrinks(buffered);
    law_read_line_is_one_line(buffered);
    if let LineView::Line(line, rest) = front_line(buffered) {
        match stage {
            StageView::Line => {
                if let Some(request) = begun(line) {
                    lemma_words_are_words(line);
                    assert(is_word(words(line)[0]) && is_word(words(line)[1]) && is_word(
                        words(line)[2],
                    ));
                    law_read_request_is_sound(StageView::Headers(request), rest);
                }
            },
            StageView::Headers(request) => {
                if line.len() > 0 {
                    lemma_header_of_is_header(line);
                    law_read_request_is_sound(StageView::Headers(with_line(request, line)), rest);
                } else if let Some(n) = body_length(request.headers) {
                    law_read_request_is_sound(StageView::Body(request, n), rest);
                }
            },
            StageView::Body(..) => {},
        }
    }
}

} // verus!
