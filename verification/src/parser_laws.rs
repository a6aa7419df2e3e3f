//! What holds of the grammar of replies.

use vstd::prelude::*;

use crate::aio::{is_response, ResponseStep};
use crate::cmd::{
    count_line, crlf, decimal, packed_arg, packed_args, packed_command, packed_pipeline,
    signed_decimal,
};
use crate::cmd_laws::{
    all_digits, law_commands_are_packed_in_order, law_pipelines_are_packed_in_order,
    law_signed_decimal_is_the_number, value_of,
};
use crate::parser::{
    gather, integer, is_taken, lemma_line_end_bounds, line_end, natural, parse_data,
    parse_replies, parse_reply, value_view, values_view, ParseView, ReplyView, ValueView,
};
use crate::types::{ErrorKind, RedisError, RedisResult, Value};

verus! {

/// More bytes do not change where the first line ends.
proof fn lemma_line_end_more(bytes: Seq<u8>, from: int, more: Seq<u8>)
    requires
        0 <= from,
        line_end(bytes, from) is Some,
    ensures
        line_end(bytes + more, from) == line_end(bytes, from),
    decreases bytes.len() - from,
{
    if !(bytes[from] == 13 && bytes[from + 1] == 10) {
        lemma_line_end_more(bytes, from + 1, more);
    }
}

/// The outcome of parsing when more bytes stand behind those that were parsed.
pub open spec fn with_more<T>(outcome: ParseView<T>, more: Seq<u8>) -> ParseView<T> {
    match outcome {
        ParseView::Done(reply, rest) => ParseView::Done(reply, rest + more),
        _ => outcome,
    }
}

/// A reply is parsed as soon as it is there, and what comes behind it does not change it:
/// when bytes begin with a reply, or follow no rule of the grammar, the same holds with more
/// bytes behind them.
pub proof fn law_more_bytes_change_nothing(bytes: Seq<u8>, more: Seq<u8>)
    requires
        !(parse_reply(bytes) is Incomplete),
    ensures
        parse_reply(bytes + more) == with_more(parse_reply(bytes), more),
    decreases bytes.len(), 0nat,
{
    let longer = bytes + more;
    assert(longer[0] == bytes[0]);
    if seq![43u8, 45u8, 58u8, 36u8, 42u8].contains(bytes[0]) {
        lemma_line_end_more(bytes, 1, more);
        lemma_line_end_bounds(bytes, 1);
        let end = line_end(bytes, 1)->0;
        let line = bytes.subrange(1, end);
        let rest = bytes.skip(end + 2);
        assert(longer.subrange(1, end) =~= line);
        assert(longer.skip(end + 2) =~= rest + more);
        if bytes[0] == 36 || bytes[0] == 42 {
            if integer(line) is Some && integer(line)->0 >= 0 {
                let n = integer(line)->0;
                if bytes[0] == 36 {
                    assert((rest + more).take(n) =~= rest.take(n));
                    assert((rest + more).skip(n + 2) =~= rest.skip(n + 2) + more);
                } else {
                    lemma_more_bytes_for_replies(n as nat, rest, Ok(Seq::empty()), more);
                }
            }
        }
    }
}

/// The same of several replies.
proof fn lemma_more_bytes_for_replies(
    n: nat,
    bytes: Seq<u8>,
    gathered: Result<Seq<ValueView>, Seq<char>>,
    more: Seq<u8>,
)
    requires
        !(parse_replies(n, bytes, gathered) is Incomplete),
    ensures
        parse_replies(n, bytes + more, gathered) == with_more(
            parse_replies(n, bytes, gathered),
            more,
        ),
    decreases bytes.len(), n,
{
    if n > 0 {
        law_more_bytes_change_nothing(bytes, more);
        if let ParseView::Done(reply, rest) = parse_reply(bytes) {
            if rest.len() < bytes.len() {
                lemma_more_bytes_for_replies(
                    (n - 1) as nat,
                    rest,
                    gather(gathered, reply),
                    more,
                );
            }
        }
    }
}

/// However the bytes of a reply come in, the same reply is read: when all of them begin with
/// it, those that came first begin with the same one, or with none yet.
pub proof fn law_reply_does_not_depend_on_chunks(first: Seq<u8>, more: Seq<u8>)
    requires
        parse_reply(first + more) is Done,
    ensures
        parse_reply(first) is Incomplete || with_more(parse_reply(first), more) == parse_reply(
            first + more,
        ),
{
    if !(parse_reply(first) is Incomplete) {
        law_more_bytes_change_nothing(first, more);
    }
}

/// Decimal digits are digits, and stand for their number.
proof fn lemma_decimal(n: nat)
    ensures
        decimal(n).len() > 0,
        forall|i: int| 0 <= i < decimal(n).len() ==> 48 <= #[trigger] decimal(n)[i] <= 57,
        natural(decimal(n)) == Some(n),
    decreases n,
{
    if n >= 10 {
        lemma_decimal(n / 10);
        assert(decimal(n).drop_last() =~= decimal(n / 10));
    }
}

/// A line of digits ends where its digits end.
proof fn lemma_digits_line_end(bytes: Seq<u8>, from: int, end: int)
    requires
        0 <= from <= end,
        end + 1 < bytes.len(),
        forall|i: int| from <= i < end ==> 48 <= #[trigger] bytes[i] <= 57,
        bytes[end] == 13,
        bytes[end + 1] == 10,
    ensures
        line_end(bytes, from) == Some(end),
    decreases end - from,
{
    if from < end {
        lemma_digits_line_end(bytes, from + 1, end);
    }
}

/// How a line that gives a number is read.
proof fn lemma_count_line(marker: u8, n: nat, more: Seq<u8>)
    requires
        n <= i64::MAX,
    ensures
        ({
            let bytes = count_line(marker, n) + more;
            &&& bytes.len() > 0 && bytes[0] == marker
            &&& line_end(bytes, 1) matches Some(end) && integer(bytes.subrange(1, end)) == Some(
                n as int,
            ) && bytes.skip(end + 2) == more
        }),
{
    lemma_decimal(n);
    let digits = decimal(n);
    let bytes = count_line(marker, n) + more;
    let end = 1 + digits.len() as int;
    assert forall|i: int| 1 <= i < end implies 48 <= #[trigger] bytes[i] <= 57 by {
        assert(bytes[i] == digits[i - 1]);
    }
    lemma_digits_line_end(bytes, 1, end);
    assert(bytes.subrange(1, end) =~= digits);
    assert(digits[0] != 45);
    assert(bytes.skip(end + 2) =~= more);
}

/// A packed argument is read as data.
proof fn lemma_packed_arg_is_data(arg: Seq<u8>, more: Seq<u8>)
    requires
        arg.len() <= i64::MAX,
    ensures
        parse_reply(packed_arg(arg) + more) == ParseView::Done(
            ReplyView::Value(ValueView::Data(arg)),
            more,
        ),
{
    let behind = arg + crlf() + more;
    lemma_count_line(36, arg.len(), behind);
    assert(packed_arg(arg) + more =~= count_line(36, arg.len()) + behind);
    assert(seq![43u8, 45u8, 58u8, 36u8, 42u8][3] == 36);
    assert(behind.take(arg.len() as int) =~= arg);
    assert(behind.skip(arg.len() as int + 2) =~= more);
    assert(parse_data(arg.len() as int, behind) == ParseView::Done(
        ReplyView::Value(ValueView::Data(arg)),
        more,
    ));
}

/// Data as replies.
pub open spec fn all_data(args: Seq<Seq<u8>>) -> Seq<ValueView> {
    args.map_values(|arg: Seq<u8>| ValueView::Data(arg))
}

/// Packed arguments are read one after another.
proof fn lemma_packed_args_are_data(args: Seq<Seq<u8>>, more: Seq<u8>, gathered: Seq<ValueView>)
    requires
        forall|i: int| 0 <= i < args.len() ==> (#[trigger] args[i]).len() <= i64::MAX,
    ensures
        parse_replies(args.len(), packed_args(args) + more, Ok(gathered)) == ParseView::Done(
            ReplyView::Value(ValueView::Bulk(gathered + all_data(args))),
            more,
        ),
    decreases args.len(),
{
    let pack = |arg: Seq<u8>| packed_arg(arg);
    if args.len() == 0 {
        assert(packed_args(args) + more =~= more);
        assert(gathered + all_data(args) =~= gathered);
    } else {
        let rest = args.drop_first();
        assert(args.map_values(pack).drop_first() =~= rest.map_values(pack));
        let behind = packed_args(rest) + more;
        assert(packed_args(args) + more =~= packed_arg(args[0]) + behind);
        lemma_packed_arg_is_data(args[0], behind);
        let grown = gathered.push(ValueView::Data(args[0]));
        assert forall|i: int| 0 <= i < rest.len() implies (#[trigger] rest[i]).len()
            <= i64::MAX by {
            assert(rest[i] == args[i + 1]);
        }
        lemma_packed_args_are_data(rest, more, grown);
        assert(grown + all_data(rest) =~= gathered + all_data(args));
    }
}

/// A packed command says exactly what the command is: it is read back as the list of its
/// arguments, whatever stands behind it.
pub proof fn law_packed_command_is_read_back(args: Seq<Seq<u8>>, more: Seq<u8>)
    requires
        args.len() <= i64::MAX,
        forall|i: int| 0 <= i < args.len() ==> (#[trigger] args[i]).len() <= i64::MAX,
    ensures
        parse_reply(packed_command(args) + more) == ParseView::Done(
            ReplyView::Value(ValueView::Bulk(all_data(args))),
            more,
        ),
{
    let behind = packed_args(args) + more;
    lemma_count_line(42, args.len(), behind);
    assert(packed_command(args) + more =~= count_line(42, args.len()) + behind);
    assert(seq![43u8, 45u8, 58u8, 36u8, 42u8][4] == 42);
    lemma_packed_args_are_data(args, more, Seq::empty());
    assert(Seq::<ValueView>::empty() + all_data(args) =~= all_data(args));
}

/// A packed pipeline says exactly what its commands are: as many lists are read as it has
/// commands, each the arguments of its command, in their order, and nothing is left of it.
pub proof fn law_packed_pipeline_is_read_back(commands: Seq<Seq<Seq<u8>>>, more: Seq<u8>)
    requires
        forall|i: int|
            0 <= i < commands.len() ==> {
                &&& (#[trigger] commands[i]).len() <= i64::MAX
                &&& forall|j: int|
                    0 <= j < commands[i].len() ==> (#[trigger] commands[i][j]).len() <= i64::MAX
            },
    ensures
        reads_as(
            packed_pipeline(commands) + more,
            commands.map_values(|args: Seq<Seq<u8>>| ValueView::Bulk(all_data(args))),
            more,
        ),
    decreases commands.len(),
{
    let list = |args: Seq<Seq<u8>>| ValueView::Bulk(all_data(args));
    law_commands_are_packed_in_order(Seq::empty(), commands[0]);
    if commands.len() == 0 {
        assert(commands =~= Seq::empty());
        assert(packed_pipeline(commands) + more =~= more);
    } else {
        let rest = commands.drop_first();
        let one = Seq::<Seq<Seq<u8>>>::empty().push(commands[0]);
        law_pipelines_are_packed_in_order(one, rest);
        assert(one + rest =~= commands);
        let behind = packed_pipeline(rest) + more;
        assert(packed_pipeline(commands) + more =~= packed_command(commands[0]) + behind);
        law_packed_command_is_read_back(commands[0], behind);
        assert forall|i: int| 0 <= i < rest.len() implies {
            &&& (#[trigger] rest[i]).len() <= i64::MAX
            &&& forall|j: int|
                0 <= j < rest[i].len() ==> (#[trigger] rest[i][j]).len() <= i64::MAX
        } by {
            assert(rest[i] == commands[i + 1]);
        }
        law_packed_pipeline_is_read_back(rest, more);
        assert(commands.map_values(list).drop_first() =~= rest.map_values(list));
    }
}

/// Whether `bytes` are read as the replies `values`, one after another, with `rest` behind
/// them.
pub open spec fn reads_as(bytes: Seq<u8>, values: Seq<ValueView>, rest: Seq<u8>) -> bool
    decreases values.len(),
{
    if values.len() == 0 {
        bytes == rest
    } else {
        parse_reply(bytes) matches ParseView::Done(reply, behind) && reply == ReplyView::Value(
            values[0],
        ) && reads_as(behind, values.drop_first(), rest)
    }
}

/// Whether a line ends at place `i`: a carriage return stands there and a line feed behind it.
pub open spec fn ends_line(bytes: Seq<u8>, i: int) -> bool {
    bytes[i] == 13 && bytes[i + 1] == 10
}

/// Whether no line ends within `line`.
pub open spec fn is_line(line: Seq<u8>) -> bool {
    forall|i: int| 0 <= i < line.len() - 1 ==> !(#[trigger] ends_line(line, i))
}

/// A line ends at the first place where a carriage return and a line feed stand, and nowhere
/// if there is none.
pub proof fn law_line_ends_at_the_first_end(bytes: Seq<u8>, from: int)
    requires
        0 <= from,
    ensures
        match line_end(bytes, from) {
            Some(end) => {
                &&& from <= end < bytes.len() - 1
                &&& ends_line(bytes, end)
                &&& forall|i: int| from <= i < end ==> !(#[trigger] ends_line(bytes, i))
            },
            None => forall|i: int|
                from <= i < bytes.len() - 1 ==> !(#[trigger] ends_line(bytes, i)),
        },
    decreases bytes.len() - from,
{
    if from + 1 < bytes.len() && !ends_line(bytes, from) {
        law_line_ends_at_the_first_end(bytes, from + 1);
    }
}

/// Digits, and nothing else, are a number without a sign: the one that they make up.
pub proof fn law_natural_is_the_number(digits: Seq<u8>)
    ensures
        natural(digits) == if digits.len() > 0 && all_digits(digits) {
            Some(value_of(digits))
        } else {
            None
        },
    decreases digits.len(),
{
    if digits.len() > 0 {
        let front = digits.drop_last();
        law_natural_is_the_number(front);
        assert(digits[digits.len() - 1] == digits.last());
        if all_digits(digits) {
            assert forall|i: int| 0 <= i < front.len() implies 48 <= #[trigger] front[i]
                <= 57 by {
                assert(front[i] == digits[i]);
            }
        } else if 48 <= digits.last() <= 57 {
            assert(!all_digits(front)) by {
                let i = choose|i: int|
                    0 <= i < digits.len() && !(48 <= #[trigger] digits[i] <= 57);
                assert(front[i] == digits[i]);
            }
        }
        if digits.len() == 1 {
            assert(value_of(front) == 0);
        }
    }
}

/// A line is the integer `n` exactly when it is the digits that make it up, behind a minus
/// sign if the number is to be negative, and `n` has no more than 64 bits.
pub proof fn law_integer_is_the_number(line: Seq<u8>, n: int)
    ensures
        integer(line) == Some(n) <==> {
            &&& i64::MIN <= n <= i64::MAX
            &&& {
                ||| line.len() > 0 && all_digits(line) && n == value_of(line)
                ||| line.len() > 1 && line[0] == 45 && all_digits(line.skip(1)) && n
                    == -(value_of(line.skip(1)) as int)
            }
        },
{
    law_natural_is_the_number(line);
    law_natural_is_the_number(line.skip(1));
}

/// What a number is written as is read as that number.
pub proof fn law_written_numbers_are_read(n: i64)
    ensures
        integer(signed_decimal(n as int)) == Some(n as int),
{
    law_signed_decimal_is_the_number(n as int);
    law_integer_is_the_number(signed_decimal(n as int), n as int);
}

/// What a written number is made of does not end a line.
pub proof fn lemma_written_number_is_line(n: int)
    ensures
        is_line(signed_decimal(n)),
{
    law_signed_decimal_is_the_number(n);
    let line = signed_decimal(n);
    assert forall|i: int| 0 <= i < line.len() - 1 implies !(#[trigger] ends_line(line, i)) by {
        if n < 0 {
            if i > 0 {
                assert(line[i] == line.skip(1)[i - 1]);
            }
        }
    }
}

/// A reply that is one line: `marker`, the line and its end.
pub open spec fn line_reply(marker: u8, line: Seq<u8>) -> Seq<u8> {
    seq![marker] + line + seq![13u8, 10u8]
}

/// A line behind a marker ends where it is ended.
proof fn lemma_line_reply(marker: u8, line: Seq<u8>, more: Seq<u8>)
    requires
        is_line(line),
    ensures
        ({
            let bytes = line_reply(marker, line) + more;
            let end = 1 + line.len() as int;
            &&& bytes.len() > 0
            &&& bytes[0] == marker
            &&& line_end(bytes, 1) == Some(end)
            &&& bytes.subrange(1, end) == line
            &&& bytes.skip(end + 2) == more
        }),
{
    let bytes = line_reply(marker, line) + more;
    let end = 1 + line.len() as int;
    law_line_ends_at_the_first_end(bytes, 1);
    assert(ends_line(bytes, end));
    if let Some(e) = line_end(bytes, 1) {
        if e < end - 1 {
            assert(ends_line(line, e - 1));
        }
    }
    assert(bytes.subrange(1, end) =~= line);
    assert(bytes.skip(end + 2) =~= more);
}

/// The markers of replies.
proof fn lemma_marker(marker: u8)
    ensures
        seq![43u8, 45u8, 58u8, 36u8, 42u8].contains(marker) <==> marker == 43 || marker == 45
            || marker == 58 || marker == 36 || marker == 42,
{
    let markers = seq![43u8, 45u8, 58u8, 36u8, 42u8];
    assert(markers[0] == 43 && markers[1] == 45 && markers[2] == 58 && markers[3] == 36
        && markers[4] == 42);
}

/// `-` and a line is an error with the text of the line, and never a value. Bytes that are no
/// text follow no rule of the grammar.
pub proof fn law_error_is_read(line: Seq<u8>, more: Seq<u8>)
    requires
        is_line(line),
    ensures
        parse_reply(line_reply(45, line) + more) == if vstd::utf8::valid_utf8(line) {
            ParseView::Done(ReplyView::Error(vstd::utf8::decode_utf8(line)), more)
        } else {
            ParseView::Invalid
        },
{
    lemma_line_reply(45, line, more);
    lemma_marker(45);
}

/// `+` and a line is a status: the value for `OK`, where that is the line, and else the text of
/// the line. Bytes that are no text follow no rule of the grammar.
pub proof fn law_status_is_read(line: Seq<u8>, more: Seq<u8>)
    requires
        is_line(line),
    ensures
        parse_reply(line_reply(43, line) + more) == if line == seq![79u8, 75u8] {
            ParseView::Done(ReplyView::Value(ValueView::Okay), more)
        } else if vstd::utf8::valid_utf8(line) {
            ParseView::Done(
                ReplyView::Value(ValueView::Status(vstd::utf8::decode_utf8(line))),
                more,
            )
        } else {
            ParseView::Invalid
        },
{
    lemma_line_reply(43, line, more);
    lemma_marker(43);
}

/// Whatever text the server signals or states, that text is read.
pub proof fn law_text_is_read(text: Seq<char>, more: Seq<u8>)
    requires
        is_line(vstd::utf8::encode_utf8(text)),
    ensures
        ({
            let line = vstd::utf8::encode_utf8(text);
            &&& parse_reply(line_reply(45, line) + more) == ParseView::Done(
                ReplyView::Error(text),
                more,
            )
            &&& line != seq![79u8, 75u8] ==> parse_reply(line_reply(43, line) + more)
                == ParseView::Done(ReplyView::Value(ValueView::Status(text)), more)
        }),
{
    let line = vstd::utf8::encode_utf8(text);
    vstd::utf8::encode_utf8_valid_utf8(text);
    vstd::utf8::encode_utf8_decode_utf8(text);
    law_error_is_read(line, more);
    law_status_is_read(line, more);
}

/// `:` and a line is the integer that the line is. A line that is none follows no rule of the
/// grammar.
pub proof fn law_integer_is_read(line: Seq<u8>, more: Seq<u8>)
    requires
        is_line(line),
    ensures
        parse_reply(line_reply(58, line) + more) == match integer(line) {
            Some(n) => ParseView::Done(ReplyView::Value(ValueView::Int(n)), more),
            None => ParseView::Invalid,
        },
{
    lemma_line_reply(58, line, more);
    lemma_marker(58);
}

/// Every integer of 64 bits is read as itself.
pub proof fn law_every_integer_is_read(n: i64, more: Seq<u8>)
    ensures
        parse_reply(line_reply(58, signed_decimal(n as int)) + more) == ParseView::Done(
            ReplyView::Value(ValueView::Int(n as int)),
            more,
        ),
{
    law_written_numbers_are_read(n);
    lemma_written_number_is_line(n as int);
    law_integer_is_read(signed_decimal(n as int), more);
}

/// `$` or `*` and a negative number is the nil reply; `$` or `*` and what is no number follows
/// no rule of the grammar.
pub proof fn law_nil_is_read(marker: u8, line: Seq<u8>, more: Seq<u8>)
    requires
        marker == 36 || marker == 42,
        is_line(line),
    ensures
        integer(line) matches Some(n) ==> n < 0 ==> parse_reply(line_reply(marker, line) + more)
            == ParseView::Done(ReplyView::Value(ValueView::Nil), more),
        integer(line) is None ==> parse_reply(line_reply(marker, line) + more)
            == ParseView::<ReplyView>::Invalid,
{
    lemma_line_reply(marker, line, more);
    lemma_marker(marker);
}

/// `$` and a number of bytes, the bytes and the end of a line is these bytes as data, whatever
/// they are. While any of this is missing, more bytes are needed, and where the line does not
/// end behind the bytes, no rule of the grammar is followed.
pub proof fn law_data_is_read(line: Seq<u8>, data: Seq<u8>, behind: Seq<u8>)
    requires
        is_line(line),
        integer(line) == Some(data.len() as int),
    ensures
        parse_reply(line_reply(36, line) + data + seq![13u8, 10u8] + behind) == ParseView::Done(
            ReplyView::Value(ValueView::Data(data)),
            behind,
        ),
        behind.len() < data.len() + 2 ==> parse_reply(line_reply(36, line) + behind)
            == ParseView::<ReplyView>::Incomplete,
        behind.len() >= 2 && !ends_line(behind, 0) ==> parse_reply(
            line_reply(36, line) + (data + behind),
        ) == ParseView::<ReplyView>::Invalid,
{
    lemma_marker(36);
    let n = data.len() as int;
    let all = data + seq![13u8, 10u8] + behind;
    lemma_line_reply(36, line, all);
    assert(line_reply(36, line) + data + seq![13u8, 10u8] + behind =~= line_reply(36, line) + all);
    assert(all.take(n) =~= data);
    assert(all.skip(n + 2) =~= behind);
    assert(parse_data(n, all) == ParseView::Done(
        ReplyView::Value(ValueView::Data(data)),
        behind,
    ));
    lemma_line_reply(36, line, behind);
    lemma_line_reply(36, line, data + behind);
    if behind.len() >= 2 {
        assert((data + behind)[n] == behind[0]);
        assert((data + behind)[n + 1] == behind[1]);
    }
}

/// Whether no error is among the replies.
pub open spec fn all_values(replies: Seq<ReplyView>) -> bool {
    forall|i: int| 0 <= i < replies.len() ==> (#[trigger] replies[i]) is Value
}

/// The values of replies.
pub open spec fn values_of(replies: Seq<ReplyView>) -> Seq<ValueView> {
    replies.map_values(|reply: ReplyView| reply->Value_0)
}

/// Whether each of `parts` is read as its reply, with nothing behind it.
pub open spec fn are_read(parts: Seq<Seq<u8>>, replies: Seq<ReplyView>) -> bool {
    &&& parts.len() == replies.len()
    &&& forall|i: int|
        0 <= i < parts.len() ==> parse_reply(#[trigger] parts[i]) == ParseView::Done(
            replies[i],
            Seq::empty(),
        )
}

/// What was gathered, with replies behind it.
spec fn gather_all(
    gathered: Result<Seq<ValueView>, Seq<char>>,
    replies: Seq<ReplyView>,
) -> Result<Seq<ValueView>, Seq<char>>
    decreases replies.len(),
{
    if replies.len() == 0 {
        gathered
    } else {
        gather_all(gather(gathered, replies[0]), replies.drop_first())
    }
}

proof fn lemma_parts_are_gathered(
    n: nat,
    parts: Seq<Seq<u8>>,
    replies: Seq<ReplyView>,
    behind: Seq<u8>,
    gathered: Result<Seq<ValueView>, Seq<char>>,
)
    requires
        are_read(parts, replies),
        parts.len() <= n,
    ensures
        parse_replies(n, parts.flatten() + behind, gathered) == parse_replies(
            (n - parts.len()) as nat,
            behind,
            gather_all(gathered, replies),
        ),
    decreases parts.len(),
{
    if parts.len() == 0 {
        assert(parts.flatten() + behind =~= behind);
    } else {
        let rest = parts.drop_first();
        let after = rest.flatten() + behind;
        assert(parts.flatten() + behind =~= parts[0] + after);
        assert(parse_reply(parts[0]) is Done);
        law_more_bytes_change_nothing(parts[0], after);
        assert(Seq::<u8>::empty() + after =~= after);
        assert forall|i: int| 0 <= i < rest.len() implies parse_reply(#[trigger] rest[i])
            == ParseView::Done(replies.drop_first()[i], Seq::empty()) by {
            assert(rest[i] == parts[i + 1]);
        }
        assert(parts[0].len() > 0);
        lemma_parts_are_gathered(
            (n - 1) as nat,
            rest,
            replies.drop_first(),
            behind,
            gather(gathered, replies[0]),
        );
    }
}

proof fn lemma_gather_values(gathered: Seq<ValueView>, replies: Seq<ReplyView>)
    requires
        all_values(replies),
    ensures
        gather_all(Ok(gathered), replies) == Ok::<Seq<ValueView>, Seq<char>>(
            gathered + values_of(replies),
        ),
    decreases replies.len(),
{
    if replies.len() == 0 {
        assert(gathered + values_of(replies) =~= gathered);
    } else {
        let rest = replies.drop_first();
        assert forall|i: int| 0 <= i < rest.len() implies (#[trigger] rest[i]) is Value by {
            assert(rest[i] == replies[i + 1]);
        }
        let grown = gathered.push(replies[0]->Value_0);
        lemma_gather_values(grown, rest);
        assert(grown + values_of(rest) =~= gathered + values_of(replies));
    }
}

proof fn lemma_gather_error(
    gathered: Result<Seq<ValueView>, Seq<char>>,
    replies: Seq<ReplyView>,
    k: int,
)
    requires
        gathered is Ok,
        0 <= k < replies.len(),
        all_values(replies.take(k)),
        replies[k] is Error,
    ensures
        gather_all(gathered, replies) == Err::<Seq<ValueView>, Seq<char>>(replies[k]->Error_0),
    decreases replies.len(),
{
    let rest = replies.drop_first();
    if k == 0 {
        lemma_gather_after_error(replies[0]->Error_0, rest);
    } else {
        assert(replies.take(k)[0] == replies[0]);
        assert forall|i: int| 0 <= i < k - 1 implies (#[trigger] rest.take(k - 1)[i]) is Value by {
            assert(rest.take(k - 1)[i] == replies.take(k)[i + 1]);
        }
        lemma_gather_error(gather(gathered, replies[0]), rest, k - 1);
    }
}

proof fn lemma_gather_after_error(line: Seq<char>, replies: Seq<ReplyView>)
    ensures
        gather_all(Err(line), replies) == Err::<Seq<ValueView>, Seq<char>>(line),
    decreases replies.len(),
{
    if replies.len() > 0 {
        lemma_gather_after_error(line, replies.drop_first());
    }
}

/// `*` and a number, and as many replies behind it, is the list of their values, in their
/// order, however deep lists are in lists. Where errors are among them, it is the first of
/// them.
pub proof fn law_list_is_read(
    line: Seq<u8>,
    parts: Seq<Seq<u8>>,
    replies: Seq<ReplyView>,
    more: Seq<u8>,
)
    requires
        is_line(line),
        integer(line) == Some(parts.len() as int),
        are_read(parts, replies),
    ensures
        all_values(replies) ==> parse_reply(line_reply(42, line) + (parts.flatten() + more))
            == ParseView::Done(ReplyView::Value(ValueView::Bulk(values_of(replies))), more),
        forall|k: int|
            0 <= k < replies.len() && (#[trigger] replies[k]) is Error && all_values(
                replies.take(k),
            ) ==> parse_reply(line_reply(42, line) + (parts.flatten() + more))
                == ParseView::Done(replies[k], more),
{
    lemma_marker(42);
    lemma_line_reply(42, line, parts.flatten() + more);
    let none = Seq::<ValueView>::empty();
    lemma_parts_are_gathered(parts.len(), parts, replies, more, Ok(none));
    if all_values(replies) {
        lemma_gather_values(none, replies);
        assert(none + values_of(replies) =~= values_of(replies));
    }
    assert forall|k: int|
        0 <= k < replies.len() && (#[trigger] replies[k]) is Error && all_values(
            replies.take(k),
        ) implies parse_reply(line_reply(42, line) + (parts.flatten() + more))
        == ParseView::Done(replies[k], more) by {
        lemma_gather_error(Ok(none), replies, k);
    }
}

/// A list is not read before all its replies are there, and one that follows no rule of the
/// grammar makes the list follow none.
pub proof fn law_list_waits_for_its_replies(
    line: Seq<u8>,
    n: nat,
    parts: Seq<Seq<u8>>,
    replies: Seq<ReplyView>,
    behind: Seq<u8>,
)
    requires
        is_line(line),
        integer(line) == Some(n as int),
        are_read(parts, replies),
        parts.len() < n,
    ensures
        parse_reply(behind) is Incomplete ==> parse_reply(
            line_reply(42, line) + (parts.flatten() + behind),
        ) is Incomplete,
        parse_reply(behind) is Invalid ==> parse_reply(
            line_reply(42, line) + (parts.flatten() + behind),
        ) is Invalid,
{
    lemma_marker(42);
    lemma_line_reply(42, line, parts.flatten() + behind);
    lemma_parts_are_gathered(n, parts, replies, behind, Ok(Seq::empty()));
}

/// Nothing is read of no bytes, nor of a line that has not ended. A reply begins with `+`,
/// `-`, `:`, `$` or `*`.
pub proof fn law_replies_begin_with_a_marker(bytes: Seq<u8>)
    ensures
        bytes.len() == 0 ==> parse_reply(bytes) is Incomplete,
        ({
            let marked = bytes[0] == 43 || bytes[0] == 45 || bytes[0] == 58 || bytes[0] == 36
                || bytes[0] == 42;
            &&& bytes.len() > 0 && !marked ==> parse_reply(bytes) is Invalid
            &&& bytes.len() > 0 && marked && is_line(bytes.skip(1)) ==> parse_reply(
                bytes,
            ) is Incomplete
        }),
{
    lemma_marker(bytes[0]);
    law_line_ends_at_the_first_end(bytes, 1);
    if bytes.len() > 0 && is_line(bytes.skip(1)) {
        if let Some(end) = line_end(bytes, 1) {
            assert(ends_line(bytes.skip(1), end - 1));
        }
    }
}

proof fn lemma_values_view(values: Seq<Value>)
    ensures
        values_view(values).len() == values.len(),
        forall|i: int|
            0 <= i < values.len() ==> #[trigger] values_view(values)[i] == value_view(values[i]),
    decreases values.len(),
{
    if values.len() > 0 {
        lemma_values_view(values.drop_last());
    }
}

/// A value holds exactly what was read: the same number, bytes, text or list of values.
pub proof fn law_value_holds_what_was_read(value: Value)
    ensures
        match value_view(value) {
            ValueView::Nil => value == Value::Nil,
            ValueView::Okay => value == Value::Okay,
            ValueView::Int(n) => value matches Value::Int(m) && m == n,
            ValueView::Data(data) => value matches Value::Data(bytes) && bytes@ == data,
            ValueView::Status(text) => value matches Value::Status(line) && line@ == text,
            ValueView::Bulk(items) => value matches Value::Bulk(values) && values@.len()
                == items.len() && forall|i: int|
                0 <= i < items.len() ==> #[trigger] items[i] == value_view(values@[i]),
        },
{
    if let Value::Bulk(values) = value {
        lemma_values_view(values@);
    }
}

/// What is taken from bytes is what they begin with: a value, or the error that the server
/// signalled, with its text. Nothing is taken while bytes are missing, and bytes that follow
/// no rule of the grammar are an error of the client's own.
pub proof fn law_what_is_read_is_taken(
    bytes: Seq<u8>,
    taken: RedisResult<Option<RedisResult<Value>>>,
    rest: Seq<u8>,
)
    requires
        is_taken(bytes, taken, rest),
    ensures
        match taken {
            Ok(None) => parse_reply(bytes) is Incomplete && rest == bytes,
            Ok(Some(Ok(value))) => parse_reply(bytes) == ParseView::Done(
                ReplyView::Value(value_view(value)),
                rest,
            ),
            Ok(Some(Err(err))) => err matches RedisError::WithDescriptionAndDetail(
                kind,
                description,
                detail,
            ) && kind == ErrorKind::ResponseError && description
                == "An error was signalled by the server" && parse_reply(bytes)
                == ParseView::Done(ReplyView::Error(detail@), rest),
            Err(err) => {
                &&& parse_reply(bytes) is Invalid
                &&& rest == bytes
                &&& err == RedisError::WithDescription(ErrorKind::ResponseError, "parse error")
            },
        },
{
}

/// The response to a request is what the bytes that came in begin with, and it is waited for
/// exactly while bytes of it are missing.
pub proof fn law_response_is_what_came_in(bytes: Seq<u8>, step: ResponseStep, rest: Seq<u8>)
    requires
        is_response(bytes, step, rest),
    ensures
        step is Receive <==> parse_reply(bytes) is Incomplete,
        match step {
            ResponseStep::Receive => rest == bytes,
            ResponseStep::Done(Ok(value)) => parse_reply(bytes) == ParseView::Done(
                ReplyView::Value(value_view(value)),
                rest,
            ),
            ResponseStep::Done(Err(err)) => {
                ||| err matches RedisError::WithDescriptionAndDetail(kind, description, detail)
                    && kind == ErrorKind::ResponseError && description
                    == "An error was signalled by the server" && parse_reply(bytes)
                    == ParseView::Done(ReplyView::Error(detail@), rest)
                ||| parse_reply(bytes) is Invalid && rest == bytes && err
                    == RedisError::WithDescription(ErrorKind::ResponseError, "parse error")
            },
        },
{
}

} // verus!
