//! What holds of packed commands.

use vstd::prelude::*;

use crate::cmd::{
    decimal, packed_arg, packed_args, packed_command, packed_pipeline, signed_decimal,
};

verus! {

/// Whether all of `bytes` are decimal digits.
pub open spec fn all_digits(bytes: Seq<u8>) -> bool {
    forall|i: int| 0 <= i < bytes.len() ==> 48 <= #[trigger] bytes[i] <= 57
}

/// The number that digits make up, each worth ten times the one behind it.
pub open spec fn value_of(digits: Seq<u8>) -> nat
    decreases digits.len(),
{
    if digits.len() == 0 {
        0
    } else {
        value_of(digits.drop_last()) * 10 + (digits.last() - 48) as nat
    }
}

/// A number is written with digits that make it up, and without zeros in front of it.
pub proof fn law_decimal_is_the_number(n: nat)
    ensures
        decimal(n).len() > 0,
        all_digits(decimal(n)),
        value_of(decimal(n)) == n,
        decimal(n).len() > 1 ==> decimal(n)[0] != 48,
    decreases n,
{
    let digits = decimal(n);
    if n < 10 {
        assert(digits.drop_last() =~= Seq::empty());
        assert(value_of(digits.drop_last()) == 0);
    } else {
        law_decimal_is_the_number(n / 10);
        let front = decimal(n / 10);
        assert(digits.drop_last() =~= front);
        assert(digits[0] == front[0]);
        if front.len() == 1 {
            assert(front.drop_last() =~= Seq::empty());
            assert(value_of(front.drop_last()) == 0);
            assert(value_of(front) == front[0] - 48);
        }
    }
}

/// A number with a sign is written as its digits, behind a minus sign exactly where it is
/// negative.
pub proof fn law_signed_decimal_is_the_number(n: int)
    ensures
        ({
            let line = signed_decimal(n);
            let digits = if n < 0 {
                line.skip(1)
            } else {
                line
            };
            &&& n < 0 ==> line.len() > 1 && line[0] == 45
            &&& digits.len() > 0
            &&& all_digits(digits)
            &&& value_of(digits) == if n < 0 {
                -n
            } else {
                n
            }
            &&& digits.len() > 1 ==> digits[0] != 48
        }),
{
    if n < 0 {
        law_decimal_is_the_number((-n) as nat);
        assert(signed_decimal(n).skip(1) =~= decimal((-n) as nat));
    } else {
        law_decimal_is_the_number(n as nat);
    }
}

/// Different numbers are written differently.
pub proof fn law_different_numbers_are_written_differently(n: int, m: int)
    requires
        signed_decimal(n) == signed_decimal(m),
    ensures
        n == m,
{
    law_signed_decimal_is_the_number(n);
    law_signed_decimal_is_the_number(m);
}

/// A packed command begins with `*`, the number of its arguments and the end of a line, and
/// one more argument is packed behind the others as `$`, the number of its bytes, the end of a
/// line, these bytes, and the end of a line.
pub proof fn law_arguments_are_packed_in_order(args: Seq<Seq<u8>>, arg: Seq<u8>)
    ensures
        packed_command(args) == seq![42u8] + decimal(args.len()) + seq![13u8, 10u8] + packed_args(
            args,
        ),
        packed_args(Seq::empty()) == Seq::<u8>::empty(),
        packed_args(args.push(arg)) == packed_args(args) + (seq![36u8] + decimal(arg.len())
            + seq![13u8, 10u8] + arg + seq![13u8, 10u8]),
{
    let pack = |arg: Seq<u8>| packed_arg(arg);
    let packed = args.map_values(pack);
    assert(args.push(arg).map_values(pack) =~= packed.push(packed_arg(arg)));
    packed.lemma_flatten_push(packed_arg(arg));
    assert(Seq::<Seq<u8>>::empty().map_values(pack) =~= Seq::empty());
}

/// A packed pipeline is its packed commands, all of them and in their order: one more command
/// is packed behind the others, and changes nothing before it.
pub proof fn law_commands_are_packed_in_order(commands: Seq<Seq<Seq<u8>>>, args: Seq<Seq<u8>>)
    ensures
        packed_pipeline(Seq::empty()) == Seq::<u8>::empty(),
        packed_pipeline(commands.push(args)) == packed_pipeline(commands) + packed_command(args),
{
    let pack = |args: Seq<Seq<u8>>| packed_command(args);
    let packed = commands.map_values(pack);
    assert(commands.push(args).map_values(pack) =~= packed.push(packed_command(args)));
    packed.lemma_flatten_push(packed_command(args));
    assert(Seq::<Seq<Seq<u8>>>::empty().map_values(pack) =~= Seq::empty());
}

/// Two pipelines that are packed one behind the other are packed as the one that has the
/// commands of both.
pub proof fn law_pipelines_are_packed_in_order(
    first: Seq<Seq<Seq<u8>>>,
    second: Seq<Seq<Seq<u8>>>,
)
    ensures
        packed_pipeline(first + second) == packed_pipeline(first) + packed_pipeline(second),
    decreases second.len(),
{
    if second.len() == 0 {
        law_commands_are_packed_in_order(first, Seq::empty());
        assert(second =~= Seq::empty());
        assert(first + second =~= first);
        assert(packed_pipeline(first) + packed_pipeline(second) =~= packed_pipeline(first));
    } else {
        let front = second.drop_last();
        law_pipelines_are_packed_in_order(first, front);
        law_commands_are_packed_in_order(first + front, second.last());
        law_commands_are_packed_in_order(front, second.last());
        assert((first + front).push(second.last()) =~= first + second);
        assert(front.push(second.last()) =~= second);
        assert(packed_pipeline(first + second) =~= packed_pipeline(first) + packed_pipeline(
            second,
        ));
    }
}

} // verus!
