//! The grammar of replies.

use vstd::prelude::*;

use crate::types::{ErrorKind, RedisError, RedisResult, Value};

verus! {

/// A reply of the server, as a mathematical value.
pub enum ValueView {
    Nil,
    Int(int),
    Data(Seq<u8>),
    Bulk(Seq<ValueView>),
    Status(Seq<char>),
    Okay,
}

/// A reply as a mathematical value.
pub open spec fn value_view(value: Value) -> ValueView
    decreases value,
{
    match value {
        Value::Nil => ValueView::Nil,
        Value::Int(n) => ValueView::Int(n as int),
        Value::Data(bytes) => ValueView::Data(bytes@),
        Value::Bulk(values) => ValueView::Bulk(values_view(values@)),
        Value::Status(line) => ValueView::Status(line@),
        Value::Okay => ValueView::Okay,
    }
}

/// Replies as mathematical values.
pub open spec fn values_view(values: Seq<Value>) -> Seq<ValueView>
    decreases values,
{
    if values.len() == 0 {
        Seq::empty()
    } else {
        values_view(values.drop_last()).push(value_view(values.last()))
    }
}

/// What the server said: a reply, or the line of an error that it signalled.
pub enum ReplyView {
    Value(ValueView),
    Error(Seq<char>),
}

/// The outcome of parsing the front of some bytes.
pub enum ParseView<T> {
    /// More bytes are needed.
    Incomplete,
    /// The bytes follow no rule of the grammar.
    Invalid,
    /// This was there, and these bytes follow it.
    Done(T, Seq<u8>),
}

/// Where the first line that ends at or behind `from` ends.
pub open spec fn line_end(bytes: Seq<u8>, from: int) -> Option<int>
    decreases bytes.len() - from,
{
    if from + 1 >= bytes.len() {
        None
    } else if bytes[from] == 13 && bytes[from + 1] == 10 {
        Some(from)
    } else {
        line_end(bytes, from + 1)
    }
}

/// The number that `digits` are in decimal.
pub open spec fn natural(digits: Seq<u8>) -> Option<nat>
    decreases digits.len(),
{
    if digits.len() == 0 {
        None
    } else {
        let last = digits.last();
        if last < 48 || last > 57 {
            None
        } else if digits.len() == 1 {
            Some((last - 48) as nat)
        } else {
            match natural(digits.drop_last()) {
                None => None,
                Some(n) => Some((n * 10 + (last - 48)) as nat),
            }
        }
    }
}

/// The number that `line` is in decimal, with a minus sign where it is negative, if it is one
/// of 64 bits.
pub open spec fn integer(line: Seq<u8>) -> Option<int> {
    let n = if line.len() > 0 && line[0] == 45 {
        match natural(line.skip(1)) {
            Some(n) => Some(-(n as int)),
            None => None,
        }
    } else {
        match natural(line) {
            Some(n) => Some(n as int),
            None => None,
        }
    };
    match n {
        Some(n) => if i64::MIN <= n <= i64::MAX {
            Some(n)
        } else {
            None
        },
        None => None,
    }
}

/// Puts a reply behind those that came before it. An error stands for all of them.
pub open spec fn gather(
    gathered: Result<Seq<ValueView>, Seq<char>>,
    reply: ReplyView,
) -> Result<Seq<ValueView>, Seq<char>> {
    match (gathered, reply) {
        (Ok(values), ReplyView::Value(value)) => Ok(values.push(value)),
        (Ok(_), ReplyView::Error(line)) => Err(line),
        (Err(line), _) => Err(line),
    }
}

/// The reply that `bytes` begin with. Its first byte says of which kind it is, and the line
/// behind that what it is, or how many bytes or replies follow.
pub open spec fn parse_reply(bytes: Seq<u8>) -> ParseView<ReplyView>
    decreases bytes.len(), 0nat,
{
    if bytes.len() == 0 {
        ParseView::Incomplete
    } else if !seq![43u8, 45u8, 58u8, 36u8, 42u8].contains(bytes[0]) {
        ParseView::Invalid
    } else {
        match line_end(bytes, 1) {
            None => ParseView::Incomplete,
            Some(end) => {
                let line = bytes.subrange(1, end);
                let rest = bytes.skip(end + 2);
                if bytes[0] == 43 {
                    parse_status(line, rest)
                } else if bytes[0] == 45 {
                    parse_error(line, rest)
                } else {
                    match integer(line) {
                        None => ParseView::Invalid,
                        Some(n) => if bytes[0] == 58 {
                            ParseView::Done(ReplyView::Value(ValueView::Int(n)), rest)
                        } else if n < 0 {
                            ParseView::Done(ReplyView::Value(ValueView::Nil), rest)
                        } else if bytes[0] == 36 {
                            parse_data(n, rest)
                        } else {
                            proof {
                                lemma_line_end_bounds(bytes, 1);
                            }
                            parse_replies(n as nat, rest, Ok(Seq::empty()))
                        },
                    }
                }
            },
        }
    }
}

/// A status: `OK` or another line of text.
pub open spec fn parse_status(line: Seq<u8>, rest: Seq<u8>) -> ParseView<ReplyView> {
    if line == seq![79u8, 75u8] {
        ParseView::Done(ReplyView::Value(ValueView::Okay), rest)
    } else if !vstd::utf8::valid_utf8(line) {
        ParseView::Invalid
    } else {
        ParseView::Done(
            ReplyView::Value(ValueView::Status(vstd::utf8::decode_utf8(line))),
            rest,
        )
    }
}

/// An error: a line of text.
pub open spec fn parse_error(line: Seq<u8>, rest: Seq<u8>) -> ParseView<ReplyView> {
    if !vstd::utf8::valid_utf8(line) {
        ParseView::Invalid
    } else {
        ParseView::Done(ReplyView::Error(vstd::utf8::decode_utf8(line)), rest)
    }
}

/// Data: `n` bytes and the end of a line.
pub open spec fn parse_data(n: int, bytes: Seq<u8>) -> ParseView<ReplyView> {
    if bytes.len() < n + 2 {
        ParseView::Incomplete
    } else if bytes[n] == 13 && bytes[n + 1] == 10 {
        ParseView::Done(ReplyView::Value(ValueView::Data(bytes.take(n))), bytes.skip(n + 2))
    } else {
        ParseView::Invalid
    }
}

/// The next `n` replies, behind those that were gathered. Each takes up at least one byte.
pub open spec fn parse_replies(
    n: nat,
    bytes: Seq<u8>,
    gathered: Result<Seq<ValueView>, Seq<char>>,
) -> ParseView<ReplyView>
    decreases bytes.len(), n,
{
    if n == 0 {
        match gathered {
            Ok(values) => ParseView::Done(ReplyView::Value(ValueView::Bulk(values)), bytes),
            Err(line) => ParseView::Done(ReplyView::Error(line), bytes),
        }
    } else {
        match parse_reply(bytes) {
            ParseView::Incomplete => ParseView::Incomplete,
            ParseView::Invalid => ParseView::Invalid,
            ParseView::Done(reply, rest) => if rest.len() < bytes.len() {
                parse_replies((n - 1) as nat, rest, gather(gathered, reply))
            } else {
                ParseView::Invalid
            },
        }
    }
}

/// The error that stands for one that the server signalled with `line`.
pub open spec fn is_server_error(err: RedisError, line: Seq<char>) -> bool {
    err matches RedisError::WithDescriptionAndDetail(kind, description, detail) && kind
        == ErrorKind::ResponseError && description == "An error was signalled by the server"
        && detail@ == line
}

/// Whether `result` is what the server said.
pub open spec fn is_reply(result: RedisResult<Value>, reply: ReplyView) -> bool {
    match reply {
        ReplyView::Value(value) => result matches Ok(v) && value_view(v) == value,
        ReplyView::Error(line) => result matches Err(err) && is_server_error(err, line),
    }
}

/// The outcome of parsing the front of some bytes.
enum Parsed {
    /// More bytes are needed.
    Incomplete,
    /// The bytes follow no rule of the grammar.
    Invalid,
    /// This was there, up to this place.
    Done(RedisResult<Value>, usize),
}

/// Whether `parsed` is the outcome of parsing what stands behind `start`.
spec fn is_parsed(
    parsed: Parsed,
    bytes: Seq<u8>,
    start: int,
    outcome: ParseView<ReplyView>,
) -> bool {
    match outcome {
        ParseView::Incomplete => parsed is Incomplete,
        ParseView::Invalid => parsed is Invalid,
        ParseView::Done(reply, rest) => {
            &&& parsed matches Parsed::Done(result, end)
            &&& start < end <= bytes.len()
            &&& rest == bytes.skip(end as int)
            &&& is_reply(result, reply)
        },
    }
}

/// `String::from_utf8` makes a string of bytes if they are valid UTF-8, and an error if they
/// are not. The characters of the string are those that the bytes encode.
#[verifier::external_body]
fn string_from_utf8(bytes: Vec<u8>) -> (r: Option<String>)
    ensures
        r is Some <==> vstd::utf8::valid_utf8(bytes@),
        r matches Some(text) ==> text@ == vstd::utf8::decode_utf8(bytes@),
{
    String::from_utf8(bytes).ok()
}

/// The bytes from `from` up to `to`.
fn copy_range(bytes: &[u8], from: usize, to: usize) -> (copy: Vec<u8>)
    requires
        from <= to <= bytes@.len(),
    ensures
        copy@ == bytes@.subrange(from as int, to as int),
{
    let mut copy: Vec<u8> = Vec::new();
    let mut i: usize = from;
    while i < to
        invariant
            from <= i <= to <= bytes@.len(),
            copy@ == bytes@.subrange(from as int, i as int),
        decreases to - i,
    {
        copy.push(bytes[i]);
        i = i + 1;
        assert(copy@ =~= bytes@.subrange(from as int, i as int));
    }
    copy
}

/// Where the first line that ends at or behind `from` ends.
fn find_line_end(bytes: &[u8], from: usize) -> (end: Option<usize>)
    ensures
        match line_end(bytes@, from as int) {
            None => end is None,
            Some(e) => end == Some(e as usize) && from <= e && e + 1 < bytes@.len(),
        },
{
    let mut i: usize = from;
    if bytes.len() < 2 {
        return None;
    }
    while i < bytes.len() - 1
        invariant
            from <= i,
            2 <= bytes@.len(),
            line_end(bytes@, i as int) == line_end(bytes@, from as int),
        decreases bytes@.len() - i,
    {
        if bytes[i] == 13 && bytes[i + 1] == 10 {
            return Some(i);
        }
        i = i + 1;
    }
    None
}

/// A line ends within the bytes.
pub proof fn lemma_line_end_bounds(bytes: Seq<u8>, from: int)
    ensures
        line_end(bytes, from) matches Some(end) ==> from <= end && end + 1 < bytes.len(),
    decreases bytes.len() - from,
{
    if from + 1 < bytes.len() {
        lemma_line_end_bounds(bytes, from + 1);
    }
}

/// The end of the first line, seen from behind a prefix.
proof fn lemma_line_end_skip(bytes: Seq<u8>, start: int, from: int)
    requires
        0 <= start <= bytes.len(),
        0 <= from,
    ensures
        line_end(bytes.skip(start), from) == (match line_end(bytes, start + from) {
            None => None,
            Some(e) => Some(e - start),
        }),
    decreases bytes.len() - start - from,
{
    if from + 1 < bytes.len() - start {
        lemma_line_end_skip(bytes, start, from + 1);
    }
}

/// What the front of a number is, is no more than the number.
proof fn lemma_natural_front(digits: Seq<u8>, i: int)
    requires
        1 <= i <= digits.len(),
        natural(digits) is Some,
    ensures
        natural(digits.take(i)) is Some,
        natural(digits.take(i))->0 <= natural(digits)->0,
    decreases digits.len(),
{
    if i == digits.len() {
        assert(digits.take(i) =~= digits);
    } else {
        lemma_natural_front(digits.drop_last(), i);
        assert(digits.drop_last().take(i) =~= digits.take(i));
    }
}

/// The number of the digits from `from` up to `to`, unless it is over 2^63.
fn parse_natural(bytes: &[u8], from: usize, to: usize) -> (n: Option<u64>)
    requires
        from <= to <= bytes@.len(),
    ensures
        n == (match natural(bytes@.subrange(from as int, to as int)) {
            Some(n) => if n <= 0x8000_0000_0000_0000 {
                Some(n as u64)
            } else {
                None
            },
            None => None,
        }),
{
    let ghost digits = bytes@.subrange(from as int, to as int);
    if from == to {
        return None;
    }
    let mut n: u64 = 0;
    let mut i: usize = from;
    while i < to
        invariant
            from <= i <= to <= bytes@.len(),
            digits == bytes@.subrange(from as int, to as int),
            n <= 0x8000_0000_0000_0000,
            i == from ==> n == 0,
            i > from ==> natural(digits.take(i - from)) == Some(n as nat),
        decreases to - i,
    {
        let digit: u8 = bytes[i];
        let ghost front = digits.take(i + 1 - from);
        proof {
            assert(front.last() == digit);
            assert(front.drop_last() =~= digits.take(i - from));
            if natural(digits) is Some {
                lemma_natural_front(digits, i + 1 - from);
            }
        }
        if digit < 48 || digit > 57 {
            return None;
        }
        let value: u128 = (n as u128) * 10 + ((digit - 48) as u128);
        assert(natural(front) == Some(value as nat));
        if value > 0x8000_0000_0000_0000 {
            return None;
        }
        n = value as u64;
        i = i + 1;
    }
    assert(digits.take(to - from) =~= digits);
    Some(n)
}

/// The number that the line from `from` up to `to` is.
fn parse_integer(bytes: &[u8], from: usize, to: usize) -> (n: Option<i64>)
    requires
        from <= to <= bytes@.len(),
    ensures
        n == (match integer(bytes@.subrange(from as int, to as int)) {
            Some(n) => Some(n as i64),
            None => None,
        }),
{
    let ghost line = bytes@.subrange(from as int, to as int);
    if from < to && bytes[from] == 45 {
        assert(line.skip(1) =~= bytes@.subrange(from + 1, to as int));
        match parse_natural(bytes, from + 1, to) {
            None => None,
            Some(n) => if n == 0x8000_0000_0000_0000 {
                Some(i64::MIN)
            } else {
                Some(-(n as i64))
            },
        }
    } else {
        match parse_natural(bytes, from, to) {
            None => None,
            Some(n) => if n == 0x8000_0000_0000_0000 {
                None
            } else {
                Some(n as i64)
            },
        }
    }
}

/// The text of a line.
fn parse_text(bytes: &[u8], from: usize, to: usize) -> (text: Option<String>)
    requires
        from <= to <= bytes@.len(),
    ensures
        ({
            let line = bytes@.subrange(from as int, to as int);
            &&& text is Some <==> vstd::utf8::valid_utf8(line)
            &&& text matches Some(t) ==> t@ == vstd::utf8::decode_utf8(line)
        }),
{
    string_from_utf8(copy_range(bytes, from, to))
}

/// The error that stands for one that the server signalled.
fn server_error(line: String) -> (err: RedisError)
    ensures
        is_server_error(err, line@),
{
    RedisError::WithDescriptionAndDetail(
        ErrorKind::ResponseError,
        "An error was signalled by the server",
        line,
    )
}

/// The status in the line from `from` up to `to`.
fn parse_status_line(bytes: &[u8], from: usize, to: usize) -> (parsed: Parsed)
    requires
        0 < from <= to,
        to + 2 <= bytes@.len(),
    ensures
        is_parsed(
            parsed,
            bytes@,
            from - 1,
            parse_status(bytes@.subrange(from as int, to as int), bytes@.skip(to + 2)),
        ),
{
    let ghost line = bytes@.subrange(from as int, to as int);
    if to - from == 2 && bytes[from] == 79 && bytes[from + 1] == 75 {
        assert(line =~= seq![79u8, 75u8]);
        return Parsed::Done(Ok(Value::Okay), to + 2);
    }
    assert(line != seq![79u8, 75u8]) by {
        if line == seq![79u8, 75u8] {
            assert(line.len() == 2);
            assert(line[0] == bytes@[from as int]);
            assert(line[1] == bytes@[from + 1]);
        }
    }
    match parse_text(bytes, from, to) {
        None => Parsed::Invalid,
        Some(text) => Parsed::Done(Ok(Value::Status(text)), to + 2),
    }
}

/// The `n` bytes of data behind `from`.
fn parse_data_bytes(bytes: &[u8], start: usize, from: usize, n: i64) -> (parsed: Parsed)
    requires
        start < from <= bytes@.len(),
        0 <= n,
    ensures
        is_parsed(parsed, bytes@, start as int, parse_data(n as int, bytes@.skip(from as int))),
{
    let ghost rest = bytes@.skip(from as int);
    let left: usize = bytes.len() - from;
    if left < 2 || ((left - 2) as u64) < (n as u64) {
        return Parsed::Incomplete;
    }
    let to: usize = from + n as usize;
    assert(rest[n as int] == bytes@[to as int] && rest[n + 1] == bytes@[to + 1]);
    if bytes[to] == 13 && bytes[to + 1] == 10 {
        let data = copy_range(bytes, from, to);
        assert(data@ =~= rest.take(n as int));
        assert(rest.skip(n + 2) =~= bytes@.skip(to + 2));
        Parsed::Done(Ok(Value::Data(data)), to + 2)
    } else {
        Parsed::Invalid
    }
}

/// The reply behind `start`.
fn parse_from(bytes: &[u8], start: usize) -> (parsed: Parsed)
    requires
        start <= bytes@.len(),
    ensures
        is_parsed(parsed, bytes@, start as int, parse_reply(bytes@.skip(start as int))),
    decreases bytes@.len() - start,
{
    let ghost here = bytes@.skip(start as int);
    if start == bytes.len() {
        return Parsed::Incomplete;
    }
    let marker: u8 = bytes[start];
    let ghost markers = seq![43u8, 45u8, 58u8, 36u8, 42u8];
    proof {
        assert(markers[0] == 43 && markers[1] == 45 && markers[2] == 58 && markers[3] == 36
            && markers[4] == 42);
        assert(here[0] == marker);
    }
    if marker != 43 && marker != 45 && marker != 58 && marker != 36 && marker != 42 {
        return Parsed::Invalid;
    }
    assert(markers.contains(marker));
    proof {
        lemma_line_end_skip(bytes@, start as int, 1);
    }
    let end = match find_line_end(bytes, start + 1) {
        None => {
            return Parsed::Incomplete;
        },
        Some(end) => end,
    };
    let ghost line = here.subrange(1, end - start);
    assert(line =~= bytes@.subrange(start + 1, end as int));
    let ghost rest = here.skip(end - start + 2);
    assert(rest =~= bytes@.skip(end + 2));
    if marker == 43 {
        return parse_status_line(bytes, start + 1, end);
    }
    if marker == 45 {
        return match parse_text(bytes, start + 1, end) {
            None => Parsed::Invalid,
            Some(text) => Parsed::Done(Err(server_error(text)), end + 2),
        };
    }
    let n = match parse_integer(bytes, start + 1, end) {
        None => {
            return Parsed::Invalid;
        },
        Some(n) => n,
    };
    if marker == 58 {
        return Parsed::Done(Ok(Value::Int(n)), end + 2);
    }
    if n < 0 {
        return Parsed::Done(Ok(Value::Nil), end + 2);
    }
    if marker == 36 {
        return parse_data_bytes(bytes, start, end + 2, n);
    }
    let mut gathered: RedisResult<Vec<Value>> = Ok(Vec::new());
    let mut missing: i64 = n;
    let mut place: usize = end + 2;
    while missing > 0
        invariant
            start < place <= bytes@.len(),
            0 <= missing,
            here == bytes@.skip(start as int),
            parse_replies(
                missing as nat,
                bytes@.skip(place as int),
                gathered_view(gathered),
            ) == parse_reply(here),
            is_gathered(gathered),
        decreases missing,
    {
        match parse_from(bytes, place) {
            Parsed::Incomplete => {
                return Parsed::Incomplete;
            },
            Parsed::Invalid => {
                return Parsed::Invalid;
            },
            Parsed::Done(reply, next) => {
                gathered = gather_reply(gathered, reply);
                place = next;
                missing = missing - 1;
            },
        }
    }
    match gathered {
        Ok(values) => Parsed::Done(Ok(Value::Bulk(values)), place),
        Err(err) => Parsed::Done(Err(err), place),
    }
}

/// Replies that were gathered, as a mathematical value.
spec fn gathered_view(gathered: RedisResult<Vec<Value>>) -> Result<Seq<ValueView>, Seq<char>> {
    match gathered {
        Ok(values) => Ok(values_view(values@)),
        Err(RedisError::WithDescriptionAndDetail(_, _, line)) => Err(line@),
        Err(_) => Err(Seq::empty()),
    }
}

/// Whether what was gathered is replies, or an error that the server signalled.
spec fn is_gathered(gathered: RedisResult<Vec<Value>>) -> bool {
    gathered matches Err(err) ==> is_server_error(err, gathered_view(gathered)->Err_0)
}

/// Puts a reply behind those that came before it.
fn gather_reply(gathered: RedisResult<Vec<Value>>, reply: RedisResult<Value>) -> (r: RedisResult<
    Vec<Value>,
>)
    requires
        is_gathered(gathered),
    ensures
        forall|said: ReplyView| #[trigger]
            is_reply(reply, said) ==> is_gathered(r) && gathered_view(r) == gather(
                gathered_view(gathered),
                said,
            ),
{
    match gathered {
        Err(err) => Err(err),
        Ok(mut values) => match reply {
            Err(err) => Err(err),
            Ok(value) => {
                let ghost before = values@;
                values.push(value);
                assert(values@.drop_last() =~= before);
                Ok(values)
            },
        },
    }
}

/// The error for bytes that follow no rule of the grammar.
pub open spec fn parse_failure() -> RedisError {
    RedisError::WithDescription(ErrorKind::ResponseError, "parse error")
}

/// Takes the reply that `bytes` begin with: what the server said and how many bytes that
/// took, or nothing while bytes are missing.
pub fn decode(bytes: &[u8]) -> (r: RedisResult<Option<(RedisResult<Value>, usize)>>)
    ensures
        match parse_reply(bytes@) {
            ParseView::Incomplete => r matches Ok(decoded) && decoded is None,
            ParseView::Invalid => r matches Err(err) && err == parse_failure(),
            ParseView::Done(reply, rest) => {
                &&& r matches Ok(Some((result, end)))
                &&& 0 < end <= bytes@.len()
                &&& rest == bytes@.skip(end as int)
                &&& is_reply(result, reply)
            },
        },
{
    assert(bytes@.skip(0) =~= bytes@);
    match parse_from(bytes, 0) {
        Parsed::Incomplete => Ok(None),
        Parsed::Invalid => Err(
            RedisError::WithDescription(ErrorKind::ResponseError, "parse error"),
        ),
        Parsed::Done(result, end) => Ok(Some((result, end))),
    }
}

/// Whether `taken` is what the server said first in `bytes`, and `rest` what stands behind
/// it. Nothing is taken while bytes are missing, nor where they follow no rule.
pub open spec fn is_taken(
    bytes: Seq<u8>,
    taken: RedisResult<Option<RedisResult<Value>>>,
    rest: Seq<u8>,
) -> bool {
    match parse_reply(bytes) {
        ParseView::Incomplete => taken matches Ok(reply) && reply is None && rest == bytes,
        ParseView::Invalid => taken matches Err(err) && err == parse_failure() && rest == bytes,
        ParseView::Done(reply, behind) => taken matches Ok(Some(result)) && is_reply(result, reply)
            && rest == behind,
    }
}

/// Bytes that came in and were not taken as replies yet.
pub struct Decoder {
    buffer: Vec<u8>,
}

impl View for Decoder {
    type V = Seq<u8>;

    closed spec fn view(&self) -> Seq<u8> {
        self.buffer@
    }
}

impl Decoder {
    /// A decoder that nothing came into.
    pub fn new() -> (decoder: Self)
        ensures
            decoder@ == Seq::<u8>::empty(),
    {
        Decoder { buffer: Vec::new() }
    }

    /// Puts bytes that came in behind the others.
    pub fn fill(&mut self, bytes: &[u8])
        ensures
            final(self)@ == old(self)@ + bytes@,
    {
        self.buffer.extend_from_slice(bytes);
        assert(self.buffer@ =~= old(self).buffer@ + bytes@);
    }

    /// Takes the next reply.
    pub fn take_reply(&mut self) -> (taken: RedisResult<Option<RedisResult<Value>>>)
        ensures
            is_taken(old(self)@, taken, final(self)@),
    {
        match decode(self.buffer.as_slice()) {
            Err(err) => Err(err),
            Ok(None) => Ok(None),
            Ok(Some((reply, end))) => {
                let rest = self.buffer.split_off(end);
                assert(rest@ =~= old(self).buffer@.skip(end as int));
                self.buffer = rest;
                Ok(Some(reply))
            },
        }
    }
}

} // verus!
