//! Frames: how one message travels over a channel of bytes.
//!
//! A frame is a header line `Content-Length: ` with the payload's length in
//! bytes as a decimal numeral, an empty line, and the payload in UTF-8; both
//! lines end in a carriage return and a newline.
//!
//! Reading is a state machine, `FramerState`: it says what it wants next from
//! the channel, a line or a number of bytes, is fed what the channel gave,
//! and goes on or ends. `read_frame` runs it over bytes held in memory;
//! `write_frame` writes a frame; `lemma_frame_round_trip` says that what is
//! written is read back.

use crate::decimal::{
    all_digits, decimal_bytes, decimal_text, is_digit_byte, lemma_decimal_chars,
    lemma_decimal_round_trip, parse_decimal, parse_digits,
};
use vstd::prelude::*;
use vstd::slice::{slice_subrange, slice_to_vec};
use vstd::string::*;
use vstd::utf8::{
    decode_utf8, encode_utf8, encode_utf8_decode_utf8, encode_utf8_valid_utf8,
    is_ascii_chars, is_ascii_chars_encode_utf8, valid_utf8,
};

verus! {

/// Why a channel cannot be read any further.
#[derive(Clone, Copy, Debug, PartialEq, Eq, Structural)]
pub enum FramingError {
    /// The header does not give a length.
    BadLength,
    /// The channel ended where the empty line behind the header should stand.
    MissingSeparator,
    /// The channel ended before the payload was complete.
    Truncated,
    /// The payload is not UTF-8.
    InvalidUtf8,
}

/// The bytes of `Content-Length: `, with which the header line begins.
pub open spec fn header_prefix() -> Seq<u8> {
    seq![67u8, 111, 110, 116, 101, 110, 116, 45, 76, 101, 110, 103, 116, 104, 58, 32]
}

/// The bytes of a carriage return and a newline, twice: the end of the
/// header line and the empty line behind it.
pub open spec fn header_end() -> Seq<u8> {
    seq![13u8, 10, 13, 10]
}

/// The frame of a payload.
pub open spec fn frame_spec(payload: Seq<char>) -> Seq<u8> {
    header_prefix() + decimal_bytes(encode_utf8(payload).len()) + header_end() + encode_utf8(
        payload,
    )
}

/// Blank space in a header: a space, or one of the control characters from
/// tab to carriage return.
pub open spec fn is_space_byte(b: u8) -> bool {
    b == 32 || (9 <= b && b <= 13)
}

/// How many bytes of blank space `s` begins with, counted from `from`.
pub open spec fn leading_spaces(s: Seq<u8>, from: int) -> nat
    decreases s.len() - from,
{
    if 0 <= from < s.len() && is_space_byte(s[from]) {
        1 + leading_spaces(s, from + 1)
    } else {
        0
    }
}

/// How many bytes of blank space stand right before `to`.
pub open spec fn trailing_spaces(s: Seq<u8>, to: int) -> nat
    decreases to,
{
    if 0 < to <= s.len() && is_space_byte(s[to - 1]) {
        1 + trailing_spaces(s, to - 1)
    } else {
        0
    }
}

/// `s` without the blank space at its two ends.
pub open spec fn trimmed(s: Seq<u8>) -> Seq<u8> {
    let first = leading_spaces(s, 0) as int;
    if first >= s.len() {
        Seq::empty()
    } else {
        s.subrange(first, s.len() - trailing_spaces(s, s.len() as int))
    }
}

/// `s` without a plus sign at its front.
pub open spec fn unsigned(s: Seq<u8>) -> Seq<u8> {
    if s.len() > 0 && s[0] == 43 {
        s.drop_first()
    } else {
        s
    }
}

/// Whether a line is the header line: it begins with `Content-Length: `,
/// letter for letter.
pub open spec fn is_header(line: Seq<u8>) -> bool {
    line.len() >= header_prefix().len() && line.subrange(0, header_prefix().len() as int)
        == header_prefix()
}

/// The length that a header line gives: what stands behind the prefix, blank
/// space at both ends and a plus sign set aside, read as a numeral.
pub open spec fn declared_length(line: Seq<u8>) -> Option<usize> {
    parse_decimal(
        unsigned(trimmed(line.subrange(header_prefix().len() as int, line.len() as int))),
    )
}

/// Where a frame's reader stands.
#[derive(Clone, Copy, Debug, PartialEq, Eq, Structural)]
pub enum FramerState {
    /// Before a frame: lines are read until the header comes.
    Header,
    /// Behind the header: one more line, the empty one, is read and dropped.
    Separator { length: usize },
    /// Behind the empty line: the payload's bytes are read.
    Payload { length: usize },
}

/// What a reader asks of the channel.
#[derive(Clone, Copy, Debug, PartialEq, Eq, Structural)]
pub enum Wanted {
    /// The bytes up to the next newline, the newline included; what is left,
    /// where no newline comes any more; nothing at the channel's end.
    Line,
    /// So many bytes, or fewer where the channel ends before.
    Bytes(usize),
}

/// How reading a frame ends.
#[derive(Clone, Debug)]
pub enum Outcome {
    /// A frame was read: its payload.
    Frame(String),
    /// The channel ended between two frames.
    EndOfStream,
    /// The channel cannot be read any further.
    Failed(FramingError),
}

/// How reading a frame ends, the payload as a sequence of characters.
pub enum OutcomeView {
    Frame(Seq<char>),
    EndOfStream,
    Failed(FramingError),
}

impl View for Outcome {
    type V = OutcomeView;

    open spec fn view(&self) -> OutcomeView {
        match self {
            Outcome::Frame(text) => OutcomeView::Frame(text@),
            Outcome::EndOfStream => OutcomeView::EndOfStream,
            Outcome::Failed(error) => OutcomeView::Failed(*error),
        }
    }
}

/// What feeding a reader gives.
#[derive(Clone, Debug)]
pub enum Fed {
    /// The reader goes on in this state.
    Continue(FramerState),
    /// The reader is done.
    Done(Outcome),
}

/// What feeding a reader gives, the payload as a sequence of characters.
pub enum FedView {
    Continue(FramerState),
    Done(OutcomeView),
}

impl View for Fed {
    type V = FedView;

    open spec fn view(&self) -> FedView {
        match self {
            Fed::Continue(state) => FedView::Continue(*state),
            Fed::Done(outcome) => FedView::Done(outcome@),
        }
    }
}

impl FramerState {
    /// What a reader in this state asks of the channel.
    pub open spec fn wants(self) -> Wanted {
        match self {
            FramerState::Header => Wanted::Line,
            FramerState::Separator { length } => Wanted::Line,
            FramerState::Payload { length } => Wanted::Bytes(length),
        }
    }

    /// What a reader in this state does with `input`, the bytes that the
    /// channel gave for what the reader wanted.
    ///
    /// Before a frame, the end of the channel ends the reading, the header
    /// line gives the length, or fails where it gives none, and any other
    /// line is passed over. Behind the header any line is taken for the
    /// empty one, but the channel must not end there. The payload must come
    /// in full and be UTF-8.
    pub open spec fn fed(self, input: Seq<u8>) -> FedView {
        match self {
            FramerState::Header => if input.len() == 0 {
                FedView::Done(OutcomeView::EndOfStream)
            } else if is_header(input) {
                match declared_length(input) {
                    Some(length) => FedView::Continue(FramerState::Separator { length }),
                    None => FedView::Done(OutcomeView::Failed(FramingError::BadLength)),
                }
            } else {
                FedView::Continue(FramerState::Header)
            },
            FramerState::Separator { length } => if input.len() == 0 {
                FedView::Done(OutcomeView::Failed(FramingError::MissingSeparator))
            } else {
                FedView::Continue(FramerState::Payload { length })
            },
            FramerState::Payload { length } => if input.len() != length {
                FedView::Done(OutcomeView::Failed(FramingError::Truncated))
            } else if valid_utf8(input) {
                FedView::Done(OutcomeView::Frame(decode_utf8(input)))
            } else {
                FedView::Done(OutcomeView::Failed(FramingError::InvalidUtf8))
            },
        }
    }
}

/// How many bytes stand from `from` on before the next newline, or before
/// the end where no newline comes.
pub open spec fn before_newline(bytes: Seq<u8>, from: int) -> nat
    decreases bytes.len() - from,
{
    if 0 <= from < bytes.len() && bytes[from] != 10 {
        1 + before_newline(bytes, from + 1)
    } else {
        0
    }
}

/// Where the line that starts at `from` ends: behind its newline, or at the
/// end of the bytes.
pub open spec fn line_end(bytes: Seq<u8>, from: int) -> int {
    let newline = from + before_newline(bytes, from);
    if newline < bytes.len() {
        newline + 1
    } else {
        bytes.len() as int
    }
}

/// A line ends inside the bytes, behind at least one byte if there is one.
pub proof fn lemma_before_newline(bytes: Seq<u8>, from: int)
    requires
        0 <= from <= bytes.len(),
    ensures
        from + before_newline(bytes, from) <= bytes.len(),
        from + before_newline(bytes, from) < bytes.len() ==> bytes[from + before_newline(
            bytes,
            from,
        )] == 10,
        from <= line_end(bytes, from) <= bytes.len(),
        from < bytes.len() ==> from < line_end(bytes, from),
    decreases bytes.len() - from,
{
    if from < bytes.len() && bytes[from] != 10 {
        lemma_before_newline(bytes, from + 1);
    }
}

/// The bytes that a channel holding `bytes`, read up to `from`, gives for
/// what a reader wants.
pub open spec fn supplied(bytes: Seq<u8>, from: int, wanted: Wanted) -> Seq<u8> {
    match wanted {
        Wanted::Line => bytes.subrange(from, line_end(bytes, from)),
        Wanted::Bytes(count) => if from + count <= bytes.len() {
            bytes.subrange(from, from + count)
        } else {
            bytes.subrange(from, bytes.len() as int)
        },
    }
}

/// What reading a frame gives, and up to where the channel has been read.
pub struct ReadView {
    pub outcome: OutcomeView,
    pub next: int,
}

/// Reading from `from` on with the reader in `state`: the reader is fed what
/// it wants until it is done.
pub open spec fn read_from(bytes: Seq<u8>, from: int, state: FramerState) -> ReadView
    decreases bytes.len() - from,
    when 0 <= from <= bytes.len()
    via read_from_terminates
{
    let input = supplied(bytes, from, state.wants());
    match state.fed(input) {
        FedView::Continue(next) => read_from(bytes, from + input.len(), next),
        FedView::Done(outcome) => ReadView { outcome, next: from + input.len() },
    }
}

#[via_fn]
proof fn read_from_terminates(bytes: Seq<u8>, from: int, state: FramerState) {
    lemma_before_newline(bytes, from);
}

/// `String::from_utf8`: the text that the bytes encode, or nothing where
/// they are not UTF-8. The text, where there is one, holds these very bytes.
#[verifier::external_body]
fn text_of(bytes: Vec<u8>) -> (text: Option<String>)
    ensures
        text is Some <==> valid_utf8(bytes@),
        text matches Some(s) ==> encode_utf8(s@) == bytes@,
{
    String::from_utf8(bytes).ok()
}

fn space_byte(b: u8) -> (r: bool)
    ensures
        r == is_space_byte(b),
{
    b == 32 || (9 <= b && b <= 13)
}

/// The bytes with which the header line begins.
fn prefix_bytes() -> (bytes: Vec<u8>)
    ensures
        bytes@ == header_prefix(),
{
    let bytes = vec![67u8, 111, 110, 116, 101, 110, 116, 45, 76, 101, 110, 103, 116, 104, 58, 32];
    assert(bytes@ =~= header_prefix());
    bytes
}

/// Whether `line` is the header line.
fn header_line(line: &[u8]) -> (r: bool)
    ensures
        r == is_header(line@),
{
    let prefix = prefix_bytes();
    if line.len() < prefix.len() {
        return false;
    }
    let mut i: usize = 0;
    while i < prefix.len()
        invariant
            prefix@ == header_prefix(),
            prefix.len() <= line.len(),
            i <= prefix.len(),
            forall|j: int| 0 <= j < i ==> line@[j] == prefix@[j],
        decreases prefix.len() - i,
    {
        if line[i] != prefix[i] {
            assert(line@.subrange(0, header_prefix().len() as int)[i as int] != header_prefix()[i as int]);
            return false;
        }
        i += 1;
    }
    assert(line@.subrange(0, header_prefix().len() as int) =~= header_prefix());
    true
}

/// The length that the header line `line` gives.
fn header_length(line: &[u8]) -> (length: Option<usize>)
    requires
        line@.len() >= header_prefix().len(),
    ensures
        length == declared_length(line@),
{
    let rest = slice_subrange(line, 16, line.len());
    let len = rest.len();
    let mut first: usize = 0;
    while first < len && space_byte(rest[first])
        invariant
            len == rest@.len(),
            first <= len,
            first + leading_spaces(rest@, first as int) == leading_spaces(rest@, 0),
        decreases len - first,
    {
        first += 1;
    }
    if first >= len {
        return None;
    }
    let mut last: usize = len;
    while last > 0 && space_byte(rest[last - 1])
        invariant
            len == rest@.len(),
            first < last <= len,
            !is_space_byte(rest@[first as int]),
            (len - last) + trailing_spaces(rest@, last as int) == trailing_spaces(
                rest@,
                len as int,
            ),
        decreases last,
    {
        last -= 1;
    }
    let start = if rest[first] == 43 {
        first + 1
    } else {
        first
    };
    assert(rest@.subrange(start as int, last as int) =~= unsigned(trimmed(rest@)));
    parse_digits(rest, start, last)
}

impl FramerState {
    /// What a reader in this state asks of the channel.
    pub fn wanted(&self) -> (wanted: Wanted)
        ensures
            wanted == self.wants(),
    {
        match self {
            FramerState::Header => Wanted::Line,
            FramerState::Separator { length } => Wanted::Line,
            FramerState::Payload { length } => Wanted::Bytes(*length),
        }
    }

    /// Feeds the reader `input`, the bytes that the channel gave for what the
    /// reader wanted.
    pub fn feed(self, input: &[u8]) -> (fed: Fed)
        ensures
            fed@ == self.fed(input@),
    {
        match self {
            FramerState::Header => {
                if input.len() == 0 {
                    Fed::Done(Outcome::EndOfStream)
                } else if header_line(input) {
                    match header_length(input) {
                        Some(length) => Fed::Continue(FramerState::Separator { length }),
                        None => Fed::Done(Outcome::Failed(FramingError::BadLength)),
                    }
                } else {
                    Fed::Continue(FramerState::Header)
                }
            },
            FramerState::Separator { length } => {
                if input.len() == 0 {
                    Fed::Done(Outcome::Failed(FramingError::MissingSeparator))
                } else {
                    Fed::Continue(FramerState::Payload { length })
                }
            },
            FramerState::Payload { length } => {
                if input.len() != length {
                    Fed::Done(Outcome::Failed(FramingError::Truncated))
                } else {
                    match text_of(slice_to_vec(input)) {
                        Some(text) => {
                            proof {
                                encode_utf8_decode_utf8(text@);
                            }
                            Fed::Done(Outcome::Frame(text))
                        },
                        None => Fed::Done(Outcome::Failed(FramingError::InvalidUtf8)),
                    }
                }
            },
        }
    }
}

/// Reads one frame from the bytes of `input` that stand at `from` and
/// behind. Returns how the reading ended, and up to where `input` was read.
pub fn read_frame(input: &[u8], from: usize) -> (read: (Outcome, usize))
    requires
        from <= input@.len(),
    ensures
        read.0@ == read_from(input@, from as int, FramerState::Header).outcome,
        read.1 == read_from(input@, from as int, FramerState::Header).next,
        from <= read.1 <= input@.len(),
{
    let len = input.len();
    let mut state = FramerState::Header;
    let mut at: usize = from;
    loop
        invariant
            len == input@.len(),
            from <= at <= len,
            read_from(input@, at as int, state) == read_from(
                input@,
                from as int,
                FramerState::Header,
            ),
        decreases len - at,
    {
        proof {
            lemma_before_newline(input@, at as int);
        }
        let end = match state.wanted() {
            Wanted::Line => {
                let mut end: usize = at;
                while end < len && input[end] != 10
                    invariant
                        len == input@.len(),
                        at <= end <= len,
                        (end - at) + before_newline(input@, end as int) == before_newline(
                            input@,
                            at as int,
                        ),
                    decreases len - end,
                {
                    end += 1;
                }
                if end < len {
                    end + 1
                } else {
                    len
                }
            },
            Wanted::Bytes(count) => {
                if count <= len - at {
                    at + count
                } else {
                    len
                }
            },
        };
        let piece = slice_subrange(input, at, end);
        assert(piece@ == supplied(input@, at as int, state.wants()));
        match state.feed(piece) {
            Fed::Continue(next) => {
                state = next;
                at = end;
            },
            Fed::Done(outcome) => {
                return (outcome, end);
            },
        }
    }
}

/// Appends `bytes` to `out`.
fn append(out: &mut Vec<u8>, bytes: &[u8])
    ensures
        final(out)@ == old(out)@ + bytes@,
{
    let mut i: usize = 0;
    while i < bytes.len()
        invariant
            i <= bytes.len(),
            out@ == old(out)@ + bytes@.take(i as int),
        decreases bytes.len() - i,
    {
        out.push(bytes[i]);
        assert(old(out)@ + bytes@.take(i + 1) =~= (old(out)@ + bytes@.take(i as int)).push(
            bytes@[i as int],
        ));
        i += 1;
    }
    assert(bytes@.take(bytes.len() as int) =~= bytes@);
}

/// Writes the frame of `payload` to the end of `out`.
pub fn write_frame(out: &mut Vec<u8>, payload: &str)
    ensures
        final(out)@ == old(out)@ + frame_spec(payload@),
{
    let body = payload.as_bytes();
    let length = decimal_text(body.len());
    let prefix = prefix_bytes();
    let end = vec![13u8, 10, 13, 10];
    proof {
        lemma_decimal_chars(body@.len());
        assert(is_ascii_chars(length@));
        is_ascii_chars_encode_utf8(length@);
        assert(encode_utf8(length@) =~= decimal_bytes(body@.len()));
        assert(end@ =~= header_end());
    }
    append(out, prefix.as_slice());
    append(out, length.as_str().as_bytes());
    append(out, end.as_slice());
    append(out, body);
    assert(out@ =~= old(out)@ + frame_spec(payload@));
}

/// Where the next newline stands: behind `count` bytes none of which is one.
proof fn lemma_newline_at(bytes: Seq<u8>, from: int, count: int)
    requires
        0 <= from,
        0 <= count,
        from + count < bytes.len(),
        forall|i: int| from <= i < from + count ==> #[trigger] bytes[i] != 10,
        bytes[from + count] == 10,
    ensures
        before_newline(bytes, from) == count,
        line_end(bytes, from) == from + count + 1,
    decreases count,
{
    if count > 0 {
        lemma_newline_at(bytes, from + 1, count - 1);
    }
}

/// A header line written with a numeral gives the numeral's number.
proof fn lemma_header_gives_length(line: Seq<u8>, digits: Seq<u8>, length: usize)
    requires
        line == header_prefix() + digits + seq![13u8, 10u8],
        digits.len() >= 1,
        all_digits(digits),
        parse_decimal(digits) == Some(length),
    ensures
        is_header(line),
        declared_length(line) == Some(length),
{
    assert(line.subrange(0, header_prefix().len() as int) =~= header_prefix());
    let rest = line.subrange(header_prefix().len() as int, line.len() as int);
    assert(rest =~= digits + seq![13u8, 10u8]);
    assert(is_digit_byte(digits[0]));
    assert(is_digit_byte(digits[digits.len() - 1]));
    assert(rest[0] == digits[0]);
    assert(leading_spaces(rest, 0) == 0);
    assert(trailing_spaces(rest, rest.len() as int) == 2) by {
        assert(rest[rest.len() - 1] == 10);
        assert(rest[rest.len() - 2] == 13);
        assert(rest[rest.len() - 3] == digits[digits.len() - 1]);
        assert(trailing_spaces(rest, rest.len() - 2) == 0);
        assert(trailing_spaces(rest, rest.len() - 1) == 1);
    }
    assert(trimmed(rest) =~= digits);
    assert(unsigned(digits) == digits);
}

/// The header's prefix has sixteen bytes, none of them a newline.
proof fn lemma_header_prefix()
    ensures
        header_prefix().len() == 16,
        forall|i: int| 0 <= i < 16 ==> #[trigger] header_prefix()[i] != 10,
{
}

/// What a channel gives, piece by piece, where it holds a header line with
/// the numeral `digits`, an empty line and `body`.
proof fn lemma_frame_layout(before: Seq<u8>, digits: Seq<u8>, body: Seq<u8>, behind: Seq<u8>)
    requires
        all_digits(digits),
    ensures
        ({
            let framed = header_prefix() + digits + header_end() + body;
            let channel = before + framed + behind;
            let a = before.len() as int;
            let b = a + 16 + digits.len() + 2;
            &&& framed.len() == 16 + digits.len() + 4 + body.len()
            &&& line_end(channel, a) == b
            &&& supplied(channel, a, Wanted::Line) == header_prefix() + digits + seq![13u8, 10u8]
            &&& b + 2 + body.len() <= channel.len()
            &&& line_end(channel, b) == b + 2
            &&& supplied(channel, b, Wanted::Line).len() == 2
            &&& body.len() <= usize::MAX ==> supplied(
                channel,
                b + 2,
                Wanted::Bytes(body.len() as usize),
            ) == body
        }),
{
    lemma_header_prefix();
    let prefix = header_prefix();
    let framed = prefix + digits + header_end() + body;
    let channel = before + framed + behind;
    let a = before.len() as int;
    let b = a + 16 + digits.len() + 2;
    assert(framed.len() == 16 + digits.len() + 4 + body.len());
    assert forall|i: int| 0 <= i < framed.len() implies #[trigger] channel[a + i] == framed[i] by {}
    assert forall|i: int| a <= i < b - 1 implies #[trigger] channel[i] != 10 by {
        assert(channel[a + (i - a)] == framed[i - a]);
        if i < a + 16 {
            assert(framed[i - a] == prefix[i - a]);
        } else if i < b - 2 {
            assert(framed[i - a] == digits[i - a - 16]);
            assert(is_digit_byte(digits[i - a - 16]));
        } else {
            assert(framed[i - a] == header_end()[0]);
        }
    }
    assert(channel[b - 1] == 10) by {
        assert(channel[a + (b - 1 - a)] == framed[b - 1 - a]);
        assert(framed[b - 1 - a] == header_end()[1]);
    }
    assert(channel[b] == 13) by {
        assert(channel[a + (b - a)] == framed[b - a]);
        assert(framed[b - a] == header_end()[2]);
    }
    assert(channel[b + 1] == 10) by {
        assert(channel[a + (b + 1 - a)] == framed[b + 1 - a]);
        assert(framed[b + 1 - a] == header_end()[3]);
    }
    lemma_newline_at(channel, a, b - 1 - a);
    lemma_newline_at(channel, b, 1);
    assert(channel.subrange(a, b) =~= prefix + digits + seq![13u8, 10u8]) by {
        assert forall|i: int| 0 <= i < b - a implies channel.subrange(a, b)[i] == (prefix + digits
            + seq![13u8, 10u8])[i] by {
            assert(channel[a + i] == framed[i]);
        }
    }
    assert(channel.subrange(b + 2, b + 2 + body.len()) =~= body) by {
        assert forall|i: int| 0 <= i < body.len() implies channel.subrange(
            b + 2,
            b + 2 + body.len(),
        )[i] == body[i] by {
            assert(channel[a + (b + 2 - a + i)] == framed[b + 2 - a + i]);
        }
    }
}

/// A reader that finds the header line with the length `length` and a line
/// behind it goes on to read the payload.
proof fn lemma_read_header(channel: Seq<u8>, a: int, length: usize)
    requires
        0 <= a <= channel.len(),
        is_header(supplied(channel, a, Wanted::Line)),
        declared_length(supplied(channel, a, Wanted::Line)) == Some(length),
        supplied(channel, line_end(channel, a), Wanted::Line).len() == 2,
    ensures
        read_from(channel, a, FramerState::Header) == read_from(
            channel,
            line_end(channel, a) + 2,
            FramerState::Payload { length },
        ),
{
    let b = line_end(channel, a);
    lemma_before_newline(channel, a);
    lemma_before_newline(channel, b);
    let separator = FramerState::Separator { length };
    assert(read_from(channel, a, FramerState::Header) == read_from(channel, b, separator));
    assert(read_from(channel, b, separator) == read_from(
        channel,
        b + 2,
        FramerState::Payload { length },
    ));
}

/// A reader that is fed the whole payload is done, behind the payload.
proof fn lemma_read_payload(channel: Seq<u8>, c: int, body: Seq<u8>)
    requires
        0 <= c,
        c + body.len() <= channel.len(),
        body.len() <= usize::MAX,
        supplied(channel, c, Wanted::Bytes(body.len() as usize)) == body,
    ensures
        (FramerState::Payload { length: body.len() as usize }).fed(body) is Done,
        read_from(channel, c, FramerState::Payload { length: body.len() as usize }) == (ReadView {
            outcome: (FramerState::Payload { length: body.len() as usize }).fed(body)->Done_0,
            next: c + body.len(),
        }),
{
}

/// On a channel that holds a header line with the numeral of the length of
/// `body`, an empty line and `body`, a reader that starts at the header is
/// fed `body` as the payload and stops behind it.
proof fn lemma_read_framed(before: Seq<u8>, body: Seq<u8>, behind: Seq<u8>)
    requires
        body.len() <= usize::MAX,
    ensures
        ({
            let digits = decimal_bytes(body.len());
            let framed = header_prefix() + digits + header_end() + body;
            let reading = FramerState::Payload { length: body.len() as usize };
            &&& reading.fed(body) is Done
            &&& read_from(before + framed + behind, before.len() as int, FramerState::Header) == (
            ReadView {
                outcome: reading.fed(body)->Done_0,
                next: (before.len() + framed.len()) as int,
            })
        }),
{
    let length = body.len() as usize;
    let digits = decimal_bytes(body.len());
    let channel = before + (header_prefix() + digits + header_end() + body) + behind;
    let a = before.len() as int;
    let c = a + 16 + digits.len() + 4;
    lemma_decimal_round_trip(body.len());
    lemma_frame_layout(before, digits, body, behind);
    lemma_header_gives_length(supplied(channel, a, Wanted::Line), digits, length);
    lemma_read_header(channel, a, length);
    lemma_read_payload(channel, c, body);
}

/// What is written is read back: on a channel that holds the frame of
/// `payload` behind the bytes `before`, whatever follows, a reader that
/// starts at the frame reads `payload` and stops right behind the frame.
pub proof fn lemma_frame_round_trip(payload: Seq<char>, before: Seq<u8>, behind: Seq<u8>)
    requires
        encode_utf8(payload).len() <= usize::MAX,
    ensures
        read_from(
            before + frame_spec(payload) + behind,
            before.len() as int,
            FramerState::Header,
        ) == (ReadView {
            outcome: OutcomeView::Frame(payload),
            next: (before.len() + frame_spec(payload).len()) as int,
        }),
{
    let body = encode_utf8(payload);
    lemma_read_framed(before, body, behind);
    encode_utf8_valid_utf8(payload);
    encode_utf8_decode_utf8(payload);
}

/// Writing a frame to a channel and reading from where it was written gives
/// the payload back and leaves the channel read to its end.
pub proof fn lemma_write_then_read(payload: Seq<char>, channel: Seq<u8>)
    requires
        encode_utf8(payload).len() <= usize::MAX,
    ensures
        read_from(channel + frame_spec(payload), channel.len() as int, FramerState::Header) == (
        ReadView {
            outcome: OutcomeView::Frame(payload),
            next: (channel + frame_spec(payload)).len() as int,
        }),
{
    lemma_frame_round_trip(payload, channel, Seq::empty());
    assert(channel + frame_spec(payload) + Seq::<u8>::empty() =~= channel + frame_spec(payload));
}

} // verus!
