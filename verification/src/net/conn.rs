//! A connection with a read buffer in front of its stream.
//!
//! The buffer decides; whoever owns the stream reads and writes. A function that may need more
//! bytes than the buffer holds is called with [`ReadEvent::Begin`], and again with
//! [`ReadEvent::Received`] after each read that it asks for.

use vstd::prelude::*;
use vstd::utf8::{decode_utf8, encode_utf8, valid_utf8};

use crate::text::utf::{
    breaks_at, is_one_line, lemma_break_in_bytes, lemma_break_in_text, utf8_error,
};

verus! {

/// A line feed follows a carriage return at `i`.
pub open spec fn crlf_at(bytes: Seq<u8>, i: int) -> bool {
    0 <= i && i + 1 < bytes.len() && bytes[i] == 13 && bytes[i + 1] == 10
}

/// The first line terminator of `bytes` begins at `i`.
pub open spec fn line_ends_at(bytes: Seq<u8>, i: int) -> bool {
    crlf_at(bytes, i) && forall|j: int| 0 <= j < i ==> !crlf_at(bytes, j)
}

/// What the front of a byte sequence holds, read as a line.
pub enum LineView {
    /// No line terminator yet.
    Partial,
    /// A line that is not UTF-8, without its terminator.
    Malformed(Seq<u8>),
    /// The line without its terminator, and the bytes after it.
    Line(Seq<char>, Seq<u8>),
}

/// The line at the front of `bytes`.
pub open spec fn front_line(bytes: Seq<u8>) -> LineView {
    if exists|i: int| line_ends_at(bytes, i) {
        let i = choose|i: int| line_ends_at(bytes, i);
        if valid_utf8(bytes.take(i)) {
            LineView::Line(decode_utf8(bytes.take(i)), bytes.skip(i + 2))
        } else {
            LineView::Malformed(bytes.take(i))
        }
    } else {
        LineView::Partial
    }
}

/// There is at most one first terminator.
pub proof fn lemma_line_end_unique(bytes: Seq<u8>, i: int, k: int)
    requires
        line_ends_at(bytes, i),
        line_ends_at(bytes, k),
    ensures
        i == k,
{
}

/// Wherever a terminator stands there is a first one.
proof fn lemma_line_end_exists(bytes: Seq<u8>, i: int)
    requires
        crlf_at(bytes, i),
    ensures
        exists|k: int| line_ends_at(bytes, k),
    decreases i,
{
    if exists|j: int| 0 <= j < i && crlf_at(bytes, j) {
        let j = choose|j: int| 0 <= j < i && crlf_at(bytes, j);
        lemma_line_end_exists(bytes, j);
    } else {
        assert(line_ends_at(bytes, i));
    }
}

/// The line that ends at the first terminator.
pub proof fn lemma_front_line(bytes: Seq<u8>, i: int)
    requires
        line_ends_at(bytes, i),
    ensures
        front_line(bytes) == if valid_utf8(bytes.take(i)) {
            LineView::Line(decode_utf8(bytes.take(i)), bytes.skip(i + 2))
        } else {
            LineView::Malformed(bytes.take(i))
        },
{
    let k = choose|k: int| line_ends_at(bytes, k);
    lemma_line_end_unique(bytes, i, k);
}

/// The bytes after a line are fewer than the bytes before it was taken.
pub proof fn lemma_front_line_shrinks(bytes: Seq<u8>)
    ensures
        front_line(bytes) matches LineView::Line(_, rest) ==> rest.len() < bytes.len(),
{
}

/// A line is there, well formed or not, as soon as a terminator is.
pub proof fn law_line_is_there_with_its_end(bytes: Seq<u8>)
    ensures
        front_line(bytes) is Partial <==> forall|i: int| !crlf_at(bytes, i),
{
    if exists|i: int| crlf_at(bytes, i) {
        lemma_line_end_exists(bytes, choose|i: int| crlf_at(bytes, i));
    } else {
        assert(forall|i: int| line_ends_at(bytes, i) ==> crlf_at(bytes, i));
    }
}

/// A line that is complete stays what it is, whatever arrives behind it: how the bytes were cut
/// on their way makes no difference.
pub proof fn law_line_ignores_later_bytes(bytes: Seq<u8>, more: Seq<u8>)
    requires
        front_line(bytes) !is Partial,
    ensures
        front_line(bytes + more) == match front_line(bytes) {
            LineView::Line(line, rest) => LineView::Line(line, rest + more),
            other => other,
        },
{
    let i = choose|i: int| line_ends_at(bytes, i);
    let all = bytes + more;
    assert(line_ends_at(all, i)) by {
        assert forall|j: int| 0 <= j < i implies !crlf_at(all, j) by {
            assert(!crlf_at(bytes, j));
        }
    }
    lemma_front_line(all, i);
    assert(all.take(i) =~= bytes.take(i));
    assert(all.skip(i + 2) =~= bytes.skip(i + 2) + more);
}

/// A text without a line break inside it comes back as it was sent: its bytes, the terminator and
/// anything behind them give the text, and leave what was behind.
pub proof fn law_sent_line_is_read(line: Seq<char>, behind: Seq<u8>)
    requires
        is_one_line(line),
    ensures
        front_line(encode_utf8(line) + seq![13u8, 10u8] + behind) == LineView::Line(line, behind),
{
    let bytes = encode_utf8(line);
    let n = bytes.len() as int;
    let all = bytes + seq![13u8, 10u8] + behind;
    assert(line_ends_at(all, n)) by {
        assert forall|j: int| 0 <= j < n implies !crlf_at(all, j) by {
            if crlf_at(all, j) {
                assert(bytes[j] == 13 && bytes[j + 1] == 10);
                lemma_break_in_bytes(line, j);
            }
        }
    }
    lemma_front_line(all, n);
    assert(all.take(n) =~= bytes);
    assert(all.skip(n + 2) =~= behind);
    vstd::utf8::encode_utf8_valid_utf8(line);
    vstd::utf8::encode_utf8_decode_utf8(line);
}

/// A line that was read has no line break inside it.
pub proof fn law_read_line_is_one_line(bytes: Seq<u8>)
    ensures
        front_line(bytes) matches LineView::Line(line, _) ==> is_one_line(line),
{
    if let LineView::Line(line, _) = front_line(bytes) {
        let end = choose|i: int| line_ends_at(bytes, i);
        vstd::utf8::decode_utf8_encode_utf8(bytes.take(end));
        assert forall|i: int| !breaks_at(line, i) by {
            if breaks_at(line, i) {
                let k = lemma_break_in_text(line, i);
                assert(crlf_at(bytes, k));
            }
        }
    }
}

/// What a waiting function is told.
#[derive(Clone, Copy)]
pub enum ReadEvent<'a> {
    /// The function is called for the first time.
    Begin,
    /// The read that it asked for delivered these bytes; none at the end of the stream.
    Received(&'a [u8]),
}

impl<'a> ReadEvent<'a> {
    /// The bytes that came with the event.
    pub open spec fn bytes(&self) -> Seq<u8> {
        match self {
            ReadEvent::Begin => Seq::empty(),
            ReadEvent::Received(data) => data@,
        }
    }

    /// The stream has ended.
    pub open spec fn is_end(&self) -> bool {
        self matches ReadEvent::Received(data) && data@.len() == 0
    }
}

/// Why a read from the buffer failed.
#[derive(Debug)]
pub enum ConnError {
    /// The stream ended before enough bytes came.
    ConnectionClosed,
    /// The stream ended before a line terminator came.
    ClosedBeforeLineEnd,
    /// The line is not UTF-8.
    InvalidLine(std::string::FromUtf8Error),
}

/// A [`ConnError`] in views.
pub enum ConnErrorView {
    ConnectionClosed,
    ClosedBeforeLineEnd,
    InvalidLine(std::string::FromUtf8Error),
}

impl View for ConnError {
    type V = ConnErrorView;

    open spec fn view(&self) -> ConnErrorView {
        match self {
            ConnError::ConnectionClosed => ConnErrorView::ConnectionClosed,
            ConnError::ClosedBeforeLineEnd => ConnErrorView::ClosedBeforeLineEnd,
            ConnError::InvalidLine(error) => ConnErrorView::InvalidLine(*error),
        }
    }
}

/// One turn of a function that may have to wait.
pub enum Turn<T> {
    /// Read from the stream and call again with what came.
    Read,
    /// The function is done.
    Done(Result<T, ConnError>),
}

/// What a [`Turn`] says, in views.
pub enum TurnView<V> {
    Read,
    Ready(V),
    Failed(ConnErrorView),
}

impl<T: View> View for Turn<T> {
    type V = TurnView<T::V>;

    open spec fn view(&self) -> TurnView<T::V> {
        match self {
            Turn::Read => TurnView::Read,
            Turn::Done(Ok(value)) => TurnView::Ready(value@),
            Turn::Done(Err(error)) => TurnView::Failed(error@),
        }
    }
}

/// Waiting for `n` bytes: what the turn says when the buffer holds `buffered`, the new bytes
/// included.
pub open spec fn ensure_turn(buffered: Seq<u8>, n: nat, end: bool) -> TurnView<()> {
    if end {
        TurnView::Failed(ConnErrorView::ConnectionClosed)
    } else if buffered.len() < n {
        TurnView::Read
    } else {
        TurnView::Ready(())
    }
}

/// Taking `n` bytes: the turn, and what stays in the buffer.
pub open spec fn exact_turn(buffered: Seq<u8>, n: nat, end: bool) -> (TurnView<Seq<u8>>, Seq<u8>) {
    match ensure_turn(buffered, n, end) {
        TurnView::Read => (TurnView::Read, buffered),
        TurnView::Failed(error) => (TurnView::Failed(error), buffered),
        TurnView::Ready(_) => (TurnView::Ready(buffered.take(n as int)), buffered.skip(n as int)),
    }
}

/// Taking a line: the turn, and what stays in the buffer.
pub open spec fn line_turn(buffered: Seq<u8>, end: bool) -> (TurnView<Seq<char>>, Seq<u8>) {
    if end {
        (TurnView::Failed(ConnErrorView::ClosedBeforeLineEnd), buffered)
    } else {
        match front_line(buffered) {
            LineView::Partial => (TurnView::Read, buffered),
            LineView::Malformed(line) => (
                TurnView::Failed(ConnErrorView::InvalidLine(utf8_error(line))),
                buffered,
            ),
            LineView::Line(line, rest) => (TurnView::Ready(line), rest),
        }
    }
}

/// Every chunk holds something: a read that delivers nothing is the end of the stream.
pub open spec fn are_chunks(chunks: Seq<Seq<u8>>) -> bool {
    forall|i: int| 0 <= i < chunks.len() ==> (#[trigger] chunks[i]).len() > 0
}

/// The result of taking a line from a stream that delivers `chunks`, one with each read, and then
/// ends; and the bytes that are left, buffered or still to come.
pub open spec fn line_over(buffered: Seq<u8>, chunks: Seq<Seq<u8>>) -> (
    TurnView<Seq<char>>,
    Seq<u8>,
)
    decreases chunks.len(),
{
    let (turn, rest) = line_turn(buffered, false);
    if turn !is Read {
        (turn, rest + chunks.flatten())
    } else if chunks.len() == 0 {
        line_turn(buffered, true)
    } else {
        line_over(buffered + chunks[0], chunks.skip(1))
    }
}

/// The result of taking `n` bytes from a stream that delivers `chunks`, one with each read, and
/// then ends; and the bytes that are left, buffered or still to come.
pub open spec fn exact_over(buffered: Seq<u8>, n: nat, chunks: Seq<Seq<u8>>) -> (
    TurnView<Seq<u8>>,
    Seq<u8>,
)
    decreases chunks.len(),
{
    let (turn, rest) = exact_turn(buffered, n, false);
    if turn !is Read {
        (turn, rest + chunks.flatten())
    } else if chunks.len() == 0 {
        exact_turn(buffered, n, true)
    } else {
        exact_over(buffered + chunks[0], n, chunks.skip(1))
    }
}

/// Which line is read, and what is left, depends on the bytes alone, not on the chunks in which
/// they arrive.
pub proof fn law_line_whatever_the_chunks(buffered: Seq<u8>, chunks: Seq<Seq<u8>>)
    requires
        are_chunks(chunks),
    ensures
        line_over(buffered, chunks) == line_over(buffered + chunks.flatten(), Seq::empty()),
    decreases chunks.len(),
{
    let none = Seq::<Seq<u8>>::empty();
    let all = chunks.flatten();
    assert(none.flatten() =~= Seq::<u8>::empty());
    let (turn, rest) = line_turn(buffered, false);
    if turn !is Read {
        match front_line(buffered) {
            LineView::Line(_, tail) => {
                law_line_ignores_later_bytes(buffered, all);
                assert(tail + all + none.flatten() =~= tail + all);
            },
            _ => {
                law_line_ignores_later_bytes(buffered, all);
                assert(buffered + all + none.flatten() =~= buffered + all);
            },
        }
    } else if chunks.len() == 0 {
        assert(chunks =~= none);
        assert(buffered + all =~= buffered);
    } else {
        law_line_whatever_the_chunks(buffered + chunks[0], chunks.skip(1));
        assert(chunks.skip(1) =~= chunks.drop_first());
        assert(buffered + chunks[0] + chunks.skip(1).flatten() =~= buffered + all);
    }
}

/// Which bytes are taken, and what is left, depends on the bytes alone, not on the chunks in
/// which they arrive.
pub proof fn law_exact_whatever_the_chunks(buffered: Seq<u8>, n: nat, chunks: Seq<Seq<u8>>)
    requires
        are_chunks(chunks),
    ensures
        exact_over(buffered, n, chunks) == exact_over(
            buffered + chunks.flatten(),
            n,
            Seq::empty(),
        ),
    decreases chunks.len(),
{
    let none = Seq::<Seq<u8>>::empty();
    let all = chunks.flatten();
    assert(none.flatten() =~= Seq::<u8>::empty());
    if buffered.len() >= n {
        let joined = buffered + all;
        assert(joined.take(n as int) =~= buffered.take(n as int));
        assert(joined.skip(n as int) + none.flatten() =~= buffered.skip(n as int) + all);
    } else if chunks.len() == 0 {
        assert(chunks =~= none);
        assert(buffered + all =~= buffered);
    } else {
        law_exact_whatever_the_chunks(buffered + chunks[0], n, chunks.skip(1));
        assert(chunks.skip(1) =~= chunks.drop_first());
        assert(buffered + chunks[0] + chunks.skip(1).flatten() =~= buffered + all);
    }
}

/// What a reader with room for `room` bytes gets from the buffer, and what stays in it. Nothing
/// where nothing is buffered: then the reader goes to the stream.
pub open spec fn poll_turn(buffered: Seq<u8>, room: nat) -> Option<(Seq<u8>, Seq<u8>)> {
    if buffered.len() == 0 {
        None
    } else {
        let n = vstd::math::min(buffered.len() as int, room as int);
        Some((buffered.take(n), buffered.skip(n)))
    }
}

/// What reads with room for so many bytes each get from the buffer, one after the other, before
/// one of them goes to the stream; and what stays in the buffer.
pub open spec fn polled(buffered: Seq<u8>, rooms: Seq<nat>) -> (Seq<u8>, Seq<u8>)
    decreases rooms.len(),
{
    if rooms.len() == 0 {
        (Seq::empty(), buffered)
    } else {
        match poll_turn(buffered, rooms[0]) {
            None => (Seq::empty(), buffered),
            Some((data, rest)) => {
                let (more, left) = polled(rest, rooms.skip(1));
                (data + more, left)
            },
        }
    }
}

/// How many bytes the reads have room for.
pub open spec fn total(rooms: Seq<nat>) -> nat
    decreases rooms.len(),
{
    if rooms.len() == 0 {
        0
    } else {
        rooms[0] + total(rooms.skip(1))
    }
}

/// What is buffered is read first, all of it and in its order: as many bytes of its front as the
/// reads have room for, before any of them goes to the stream.
pub proof fn law_buffer_is_read_first(buffered: Seq<u8>, rooms: Seq<nat>)
    ensures
        ({
            let n = vstd::math::min(buffered.len() as int, total(rooms) as int);
            polled(buffered, rooms) == (buffered.take(n), buffered.skip(n))
        }),
    decreases rooms.len(),
{
    let n = vstd::math::min(buffered.len() as int, total(rooms) as int);
    let (data, left) = polled(buffered, rooms);
    if rooms.len() > 0 && buffered.len() > 0 {
        let first = vstd::math::min(buffered.len() as int, rooms[0] as int);
        let rest = buffered.skip(first);
        law_buffer_is_read_first(rest, rooms.skip(1));
        let m = vstd::math::min(rest.len() as int, total(rooms.skip(1)) as int);
        assert(n == first + m);
        assert(data =~= buffered.take(first) + rest.take(m));
        assert(left =~= rest.skip(m));
    }
    assert(data =~= buffered.take(n));
    assert(left =~= buffered.skip(n));
}

/// Nothing is lost or put out of order: what is taken and what is left make up what there was.
pub proof fn law_exact_keeps_all_bytes(buffered: Seq<u8>, n: nat, end: bool)
    ensures
        match exact_turn(buffered, n, end) {
            (TurnView::Ready(data), rest) => data.len() == n && data + rest == buffered,
            (_, rest) => rest == buffered,
        },
{
    if buffered.len() >= n {
        assert(buffered.take(n as int) + buffered.skip(n as int) =~= buffered);
    }
}

/// Putting back what was just taken restores the buffer.
pub proof fn law_unread_undoes_read<S>(
    before: BufferedConnection<S>,
    data: Seq<u8>,
    between: BufferedConnection<S>,
    after: BufferedConnection<S>,
)
    requires
        data.len() <= before@.len(),
        data == before@.take(data.len() as int),
        between@ == before@.skip(data.len() as int),
        after@ == data + between@,
    ensures
        after@ == before@,
{
    assert(data + between@ =~= before@);
}

/// A stream with a read buffer in front of it. The view is what the buffer holds.
pub struct BufferedConnection<S> {
    /// The stream, for whoever reads and writes.
    pub stream: S,
    read_buffer: Vec<u8>,
    buffer_size: usize,
}

impl<S> View for BufferedConnection<S> {
    type V = Seq<u8>;

    closed spec fn view(&self) -> Seq<u8> {
        self.read_buffer@
    }
}

impl<S> BufferedConnection<S> {
    /// How many bytes one read asks for at most.
    pub closed spec fn read_size(&self) -> usize {
        self.buffer_size
    }

    /// The stream behind the buffer.
    pub closed spec fn behind(&self) -> S {
        self.stream
    }

    /// `self` differs from `other` in what is buffered at most.
    pub open spec fn same_link(&self, other: &Self) -> bool {
        self.behind() == other.behind() && self.read_size() == other.read_size()
    }

    /// A connection with nothing buffered.
    pub fn new(stream: S, buffer_size: usize) -> (conn: Self)
        ensures
            conn@ == Seq::<u8>::empty(),
            conn.behind() == stream,
            conn.read_size() == buffer_size,
    {
        BufferedConnection { stream, read_buffer: Vec::new(), buffer_size }
    }

    /// Takes in what a read from the stream delivered, and returns how much that was.
    pub fn read(&mut self, received: &[u8]) -> (n: usize)
        ensures
            n == received@.len(),
            final(self)@ == old(self)@ + received@,
            final(self).same_link(old(self)),
    {
        let n: usize = received.len();
        if n > 0 {
            self.read_buffer.extend_from_slice(received);
        }
        assert(self@ =~= old(self)@ + received@);
        n
    }

    /// Takes the first `len` bytes, where that many are buffered.
    pub fn read_from_buffer(&mut self, len: usize) -> (r: Option<Vec<u8>>)
        ensures
            match r {
                Some(data) => len <= old(self)@.len() && data@ == old(self)@.take(len as int)
                    && final(self)@ == old(self)@.skip(len as int),
                None => len > old(self)@.len() && final(self)@ == old(self)@,
            },
            final(self).same_link(old(self)),
    {
        if self.read_buffer.len() >= len {
            let mut data = self.read_buffer.split_off(len);
            std::mem::swap(&mut data, &mut self.read_buffer);
            assert(data@ =~= old(self)@.take(len as int));
            assert(self@ =~= old(self)@.skip(len as int));
            Some(data)
        } else {
            None
        }
    }

    /// The first `len` bytes, left in place, where that many are buffered.
    pub fn buffer_slice(&self, len: usize) -> (r: Option<&[u8]>)
        ensures
            match r {
                Some(data) => len <= self@.len() && data@ == self@.take(len as int),
                None => len > self@.len(),
            },
    {
        if self.read_buffer.len() >= len {
            let data = vstd::slice::slice_subrange(self.read_buffer.as_slice(), 0, len);
            assert(data@ =~= self@.take(len as int));
            Some(data)
        } else {
            None
        }
    }

    /// Drops the first `len` bytes, where that many are buffered; says whether it did.
    pub fn drain_buffer(&mut self, len: usize) -> (r: bool)
        ensures
            r == (len <= old(self)@.len()),
            final(self)@ == if r {
                old(self)@.skip(len as int)
            } else {
                old(self)@
            },
            final(self).same_link(old(self)),
    {
        if self.read_buffer.len() >= len {
            self.read_buffer = self.read_buffer.split_off(len);
            assert(self@ =~= old(self)@.skip(len as int));
            true
        } else {
            false
        }
    }

    /// Waits until `n` bytes are buffered.
    pub fn ensure_bytes(&mut self, n: usize, event: ReadEvent<'_>) -> (r: Turn<()>)
        ensures
            final(self)@ == old(self)@ + event.bytes(),
            r@ == ensure_turn(final(self)@, n as nat, event.is_end()),
            final(self).same_link(old(self)),
    {
        assert(old(self)@ + Seq::<u8>::empty() =~= old(self)@);
        if let ReadEvent::Received(data) = event {
            if self.read(data) == 0 {
                return Turn::Done(Err(ConnError::ConnectionClosed));
            }
        }
        if self.read_buffer.len() < n {
            Turn::Read
        } else {
            Turn::Done(Ok(()))
        }
    }

    /// Waits for `n` bytes and takes them.
    pub fn read_exact_bytes(&mut self, n: usize, event: ReadEvent<'_>) -> (r: Turn<Vec<u8>>)
        ensures
            (r@, final(self)@) == exact_turn(
                old(self)@ + event.bytes(),
                n as nat,
                event.is_end(),
            ),
            final(self).same_link(old(self)),
    {
        match self.ensure_bytes(n, event) {
            Turn::Read => Turn::Read,
            Turn::Done(Err(error)) => Turn::Done(Err(error)),
            Turn::Done(Ok(_)) => match self.read_from_buffer(n) {
                Some(data) => Turn::Done(Ok(data)),
                None => Turn::Done(Err(ConnError::ConnectionClosed)),
            },
        }
    }

    /// Where the first line terminator begins.
    fn line_end(&self) -> (r: Option<usize>)
        ensures
            match r {
                Some(i) => line_ends_at(self@, i as int),
                None => forall|i: int| !crlf_at(self@, i),
            },
    {
        let n: usize = self.read_buffer.len();
        let mut i: usize = 0;
        while i < n && n - i >= 2
            invariant
                n == self@.len(),
                i <= n,
                forall|j: int| 0 <= j < i ==> !crlf_at(self@, j),
            decreases n - i,
        {
            if self.read_buffer[i] == 13 && self.read_buffer[i + 1] == 10 {
                return Some(i);
            }
            i += 1;
        }
        None
    }

    /// Waits for a line and takes it; the result is without the trailing `\r\n`.
    pub fn read_line(&mut self, event: ReadEvent<'_>) -> (r: Turn<String>)
        ensures
            (r@, final(self)@) == line_turn(old(self)@ + event.bytes(), event.is_end()),
            final(self).same_link(old(self)),
    {
        assert(old(self)@ + Seq::<u8>::empty() =~= old(self)@);
        if let ReadEvent::Received(data) = event {
            if self.read(data) == 0 {
                return Turn::Done(Err(ConnError::ClosedBeforeLineEnd));
            }
        }
        match self.line_end() {
            None => {
                proof {
                    if exists|i: int| line_ends_at(self@, i) {
                        let i = choose|i: int| line_ends_at(self@, i);
                        assert(crlf_at(self@, i));
                    }
                }
                Turn::Read
            },
            Some(pos) => {
                let front = vstd::slice::slice_to_vec(
                    vstd::slice::slice_subrange(self.read_buffer.as_slice(), 0, pos),
                );
                proof {
                    assert(front@ =~= self@.take(pos as int));
                    lemma_front_line(self@, pos as int);
                }
                match String::from_utf8(front) {
                    Ok(line) => {
                        assert(pos + 1 < self.read_buffer.len());
                        let drained = self.drain_buffer(pos + 2);
                        Turn::Done(Ok(line))
                    },
                    Err(error) => Turn::Done(Err(ConnError::InvalidLine(error))),
                }
            },
        }
    }

    /// Puts `data` back in front of what is buffered.
    pub fn unread(&mut self, data: &[u8])
        ensures
            final(self)@ == data@ + old(self)@,
            final(self).same_link(old(self)),
    {
        let mut new_buffer = vstd::slice::slice_to_vec(data);
        new_buffer.append(&mut self.read_buffer);
        self.read_buffer = new_buffer;
    }

    /// Whether anything is buffered.
    pub fn has_data(&self) -> (r: bool)
        ensures
            r == (self@.len() > 0),
    {
        !self.read_buffer.is_empty()
    }

    /// How many bytes one read asks for at most.
    pub fn buffer_size(&self) -> (n: usize)
        ensures
            n == self.read_size(),
    {
        self.buffer_size
    }

    /// How many bytes are buffered.
    pub fn buffer_len(&self) -> (n: usize)
        ensures
            n == self@.len(),
    {
        self.read_buffer.len()
    }

    /// Drops what is buffered.
    pub fn clear_buffer(&mut self)
        ensures
            final(self)@ == Seq::<u8>::empty(),
            final(self).same_link(old(self)),
    {
        self.read_buffer.clear();
    }

    /// Takes what a reader with room for `remaining` bytes gets from the buffer. `None` where
    /// nothing is buffered: then the reader goes to the stream.
    pub fn poll_read(&mut self, remaining: usize) -> (r: Option<Vec<u8>>)
        ensures
            match poll_turn(old(self)@, remaining as nat) {
                None => r is None && final(self)@ == old(self)@,
                Some((data, rest)) => r matches Some(taken) && taken@ == data && final(self)@
                    == rest,
            },
            final(self).same_link(old(self)),
    {
        let n: usize = self.read_buffer.len();
        if n == 0 {
            return None;
        }
        let to_copy: usize = if n < remaining {
            n
        } else {
            remaining
        };
        self.read_from_buffer(to_copy)
    }
}

/// A read line is what the peer wrote before the first terminator, and what is behind that
/// terminator stays. Without a terminator more has to be read, and nothing is taken; at the end of
/// the stream, and with bytes that are not UTF-8, the line fails and nothing is taken.
pub proof fn law_read_line(line: Seq<char>, raw: Seq<u8>, behind: Seq<u8>)
    requires
        is_one_line(line),
        forall|j: int| 0 <= j < raw.len() ==> !crlf_at(raw + seq![13u8, 10u8], j),
    ensures
        line_turn(encode_utf8(line) + seq![13u8, 10u8] + behind, false) == (
            TurnView::<Seq<char>>::Ready(line),
            behind,
        ),
        (forall|i: int| !crlf_at(behind, i)) ==> line_turn(behind, false) == (
            TurnView::<Seq<char>>::Read,
            behind,
        ),
        !valid_utf8(raw) ==> line_turn(raw + seq![13u8, 10u8] + behind, false) == (
            TurnView::<Seq<char>>::Failed(ConnErrorView::InvalidLine(utf8_error(raw))),
            raw + seq![13u8, 10u8] + behind,
        ),
        line_turn(behind, true) == (
            TurnView::<Seq<char>>::Failed(ConnErrorView::ClosedBeforeLineEnd),
            behind,
        ),
{
    law_sent_line_is_read(line, behind);
    law_line_is_there_with_its_end(behind);
    let all = raw + seq![13u8, 10u8] + behind;
    let n = raw.len() as int;
    assert(line_ends_at(all, n)) by {
        assert forall|j: int| 0 <= j < n implies !crlf_at(all, j) by {
            assert(!crlf_at(raw + seq![13u8, 10u8], j));
        }
    }
    lemma_front_line(all, n);
    assert(all.take(n) =~= raw);
}

/// As many bytes are taken as were asked for, as soon as they are there: they are the first ones,
/// and what is behind them stays. Until then more has to be read, and at the end of the stream
/// taking fails; either way nothing is taken.
pub proof fn law_read_exact(data: Seq<u8>, behind: Seq<u8>, n: nat)
    ensures
        exact_turn(data + behind, data.len(), false) == (TurnView::<Seq<u8>>::Ready(data), behind),
        ensure_turn(data + behind, data.len(), false) == TurnView::<()>::Ready(()),
        data.len() < n ==> exact_turn(data, n, false) == (TurnView::<Seq<u8>>::Read, data),
        data.len() < n ==> ensure_turn(data, n, false) == TurnView::<()>::Read,
        exact_turn(data, n, true) == (
            TurnView::<Seq<u8>>::Failed(ConnErrorView::ConnectionClosed),
            data,
        ),
        ensure_turn(data, n, true) == TurnView::<()>::Failed(ConnErrorView::ConnectionClosed),
{
    let all = data + behind;
    assert(all.take(data.len() as int) =~= data);
    assert(all.skip(data.len() as int) =~= behind);
}

/// A reader gets from the buffer what fits in its room, and goes to the stream only where nothing
/// is buffered.
pub proof fn law_read_from_the_front(data: Seq<u8>, behind: Seq<u8>, room: nat)
    ensures
        data.len() + behind.len() > 0 ==> poll_turn(data + behind, data.len()) == Some(
            (data, behind),
        ),
        0 < data.len() <= room ==> poll_turn(data, room) == Some((data, Seq::<u8>::empty())),
        poll_turn(data, room) is None <==> data.len() == 0,
{
    let all = data + behind;
    assert(all.take(data.len() as int) =~= data);
    assert(all.skip(data.len() as int) =~= behind);
    assert(data.take(data.len() as int) =~= data);
    assert(data.skip(data.len() as int) =~= Seq::<u8>::empty());
}

/// A call brings no bytes, a read brings the bytes that it delivered, and one that delivered none
/// is the end.
pub proof fn law_what_an_event_brings(data: &[u8])
    ensures
        ReadEvent::Begin.bytes() == Seq::<u8>::empty(),
        !ReadEvent::Begin.is_end(),
        ReadEvent::Received(data).bytes() == data@,
        ReadEvent::Received(data).is_end() <==> data@.len() == 0,
{
}

/// Connections that differ in what is buffered at most have the same stream and the same read size.
pub proof fn law_same_link<S>(a: BufferedConnection<S>, b: BufferedConnection<S>)
    ensures
        a.same_link(&b) <==> a.behind() == b.behind() && a.read_size() == b.read_size(),
{
}

/// A turn's view, and an error's, has what the turn or the error holds.
pub proof fn law_turn_view<T: View>(value: T, error: ConnError, utf8: std::string::FromUtf8Error)
    ensures
        Turn::<T>::Read@ == TurnView::<T::V>::Read,
        Turn::<T>::Done(Ok(value))@ == TurnView::Ready(value@),
        Turn::<T>::Done(Err(error))@ == TurnView::<T::V>::Failed(error@),
        ConnError::ConnectionClosed@ == ConnErrorView::ConnectionClosed,
        ConnError::ClosedBeforeLineEnd@ == ConnErrorView::ClosedBeforeLineEnd,
        ConnError::InvalidLine(utf8)@ == ConnErrorView::InvalidLine(utf8),
{
}

} // verus!
