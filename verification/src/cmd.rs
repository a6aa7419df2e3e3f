//! Commands and how they are packed into bytes.

use vstd::prelude::*;

verus! {

/// The end of a line.
pub open spec fn crlf() -> Seq<u8> {
    seq![13u8, 10u8]
}

/// The decimal digits of `n`.
pub open spec fn decimal(n: nat) -> Seq<u8>
    decreases n,
{
    if n < 10 {
        seq![(48 + n) as u8]
    } else {
        decimal(n / 10).push((48 + n % 10) as u8)
    }
}

/// The decimal digits of `n`, after a minus sign where it is negative.
pub open spec fn signed_decimal(n: int) -> Seq<u8> {
    if n < 0 {
        seq![45u8] + decimal((-n) as nat)
    } else {
        decimal(n as nat)
    }
}

/// A line that gives the number `n` of what follows it: `*` of arguments, `$` of bytes.
pub open spec fn count_line(marker: u8, n: nat) -> Seq<u8> {
    seq![marker] + decimal(n) + crlf()
}

/// An argument as it is packed.
pub open spec fn packed_arg(arg: Seq<u8>) -> Seq<u8> {
    count_line(36, arg.len()) + arg + crlf()
}

/// Arguments as they are packed, one after another.
pub open spec fn packed_args(args: Seq<Seq<u8>>) -> Seq<u8> {
    args.map_values(|arg: Seq<u8>| packed_arg(arg)).flatten()
}

/// A command as it is packed.
pub open spec fn packed_command(args: Seq<Seq<u8>>) -> Seq<u8> {
    count_line(42, args.len()) + packed_args(args)
}

/// Appends the decimal digits of `n`.
fn push_decimal(out: &mut Vec<u8>, n: u64)
    ensures
        final(out)@ == old(out)@ + decimal(n as nat),
    decreases n,
{
    if n >= 10 {
        push_decimal(out, n / 10);
    }
    let digit: u8 = (n % 10) as u8;
    out.push(48 + digit);
    assert(out@ =~= old(out)@ + decimal(n as nat));
}

/// Appends `bytes`.
fn push_bytes(out: &mut Vec<u8>, bytes: &[u8])
    ensures
        final(out)@ == old(out)@ + bytes@,
{
    out.extend_from_slice(bytes);
    assert(out@ =~= old(out)@ + bytes@);
}

/// Appends the end of a line.
fn push_crlf(out: &mut Vec<u8>)
    ensures
        final(out)@ == old(out)@ + crlf(),
{
    out.push(13);
    out.push(10);
    assert(out@ =~= old(out)@ + crlf());
}

/// Appends a line that gives the number `n` of what follows it.
fn push_count_line(out: &mut Vec<u8>, marker: u8, n: usize)
    ensures
        final(out)@ == old(out)@ + count_line(marker, n as nat),
{
    out.push(marker);
    push_decimal(out, n as u64);
    push_crlf(out);
    assert(out@ =~= old(out)@ + count_line(marker, n as nat));
}

/// A command: its name and its arguments, as bytes.
pub struct Cmd {
    args: Vec<Vec<u8>>,
}

impl View for Cmd {
    type V = Seq<Seq<u8>>;

    closed spec fn view(&self) -> Seq<Seq<u8>> {
        self.args@.map_values(|arg: Vec<u8>| arg@)
    }
}

/// A command with this name and no arguments yet.
pub fn cmd(name: &str) -> (c: Cmd)
    ensures
        c@ == seq![vstd::utf8::encode_utf8(name@)],
{
    let mut c = Cmd { args: Vec::new() };
    assert(c@ =~= Seq::empty());
    c.arg(name.as_bytes());
    assert(c@ =~= seq![vstd::utf8::encode_utf8(name@)]);
    c
}

impl Cmd {
    /// Adds an argument.
    pub fn arg(&mut self, bytes: &[u8])
        ensures
            final(self)@ == old(self)@.push(bytes@),
    {
        let mut arg: Vec<u8> = Vec::new();
        push_bytes(&mut arg, bytes);
        assert(arg@ =~= bytes@);
        self.args.push(arg);
        assert(self@ =~= old(self)@.push(bytes@));
    }

    /// Adds an argument that is a number in decimal.
    pub fn arg_int(&mut self, n: i64)
        ensures
            final(self)@ == old(self)@.push(signed_decimal(n as int)),
    {
        let mut arg: Vec<u8> = Vec::new();
        if n < 0 {
            arg.push(45);
            let magnitude: u64 = if n == i64::MIN {
                0x8000_0000_0000_0000
            } else {
                (-n) as u64
            };
            push_decimal(&mut arg, magnitude);
        } else {
            push_decimal(&mut arg, n as u64);
        }
        assert(arg@ =~= signed_decimal(n as int));
        self.args.push(arg);
        assert(self@ =~= old(self)@.push(signed_decimal(n as int)));
    }

    /// Appends the packed command to `out`.
    pub fn write_packed_command(&self, out: &mut Vec<u8>)
        ensures
            final(out)@ == old(out)@ + packed_command(self@),
    {
        push_count_line(out, 42, self.args.len());
        let ghost head = out@;
        let mut i: usize = 0;
        while i < self.args.len()
            invariant
                i <= self.args@.len(),
                out@ == head + packed_args(self@.take(i as int)),
            decreases self.args@.len() - i,
        {
            push_count_line(out, 36, self.args[i].len());
            push_bytes(out, self.args[i].as_slice());
            push_crlf(out);
            proof {
                lemma_packed_args_push(self@.take(i as int), self@[i as int]);
                assert(self@.take(i + 1) =~= self@.take(i as int).push(self@[i as int]));
                assert(out@ =~= head + packed_args(self@.take(i + 1)));
            }
            i = i + 1;
        }
        assert(self@.take(self@.len() as int) =~= self@);
        assert(out@ =~= old(out)@ + packed_command(self@));
    }

    /// The packed command.
    pub fn get_packed_command(&self) -> (packed: Vec<u8>)
        ensures
            packed@ == packed_command(self@),
    {
        let mut packed: Vec<u8> = Vec::new();
        self.write_packed_command(&mut packed);
        assert(packed@ =~= packed_command(self@));
        packed
    }
}

/// One more argument is packed behind the others.
proof fn lemma_packed_args_push(args: Seq<Seq<u8>>, arg: Seq<u8>)
    ensures
        packed_args(args.push(arg)) == packed_args(args) + packed_arg(arg),
{
    let pack = |arg: Seq<u8>| packed_arg(arg);
    let packed = args.map_values(pack);
    assert(args.push(arg).map_values(pack) =~= packed.push(packed_arg(arg)));
    packed.lemma_flatten_push(packed_arg(arg));
}

/// Several commands that are sent together.
pub struct Pipeline {
    commands: Vec<Cmd>,
}

impl View for Pipeline {
    type V = Seq<Seq<Seq<u8>>>;

    closed spec fn view(&self) -> Seq<Seq<Seq<u8>>> {
        self.commands@.map_values(|c: Cmd| c@)
    }
}

/// Commands as they are packed, one after another.
pub open spec fn packed_pipeline(commands: Seq<Seq<Seq<u8>>>) -> Seq<u8> {
    commands.map_values(|args: Seq<Seq<u8>>| packed_command(args)).flatten()
}

impl Pipeline {
    /// A pipeline without commands.
    pub fn new() -> (pipeline: Self)
        ensures
            pipeline@ == Seq::<Seq<Seq<u8>>>::empty(),
    {
        let pipeline = Pipeline { commands: Vec::new() };
        assert(pipeline@ =~= Seq::empty());
        pipeline
    }

    /// Adds a command.
    pub fn add_command(&mut self, c: Cmd)
        ensures
            final(self)@ == old(self)@.push(c@),
    {
        self.commands.push(c);
        assert(self@ =~= old(self)@.push(c@));
    }

    /// Appends the packed commands to `out`.
    pub fn write_packed_pipeline(&self, out: &mut Vec<u8>)
        ensures
            final(out)@ == old(out)@ + packed_pipeline(self@),
    {
        let ghost pack = |args: Seq<Seq<u8>>| packed_command(args);
        let mut i: usize = 0;
        assert(out@ =~= old(out)@ + packed_pipeline(self@.take(0)));
        while i < self.commands.len()
            invariant
                i <= self.commands@.len(),
                pack == (|args: Seq<Seq<u8>>| packed_command(args)),
                out@ == old(out)@ + packed_pipeline(self@.take(i as int)),
            decreases self.commands@.len() - i,
        {
            self.commands[i].write_packed_command(out);
            proof {
                let packed = self@.take(i as int).map_values(pack);
                packed.lemma_flatten_push(packed_command(self@[i as int]));
                assert(self@.take(i + 1).map_values(pack) =~= packed.push(
                    packed_command(self@[i as int]),
                ));
                assert(out@ =~= old(out)@ + packed_pipeline(self@.take(i + 1)));
            }
            i = i + 1;
        }
        assert(self@.take(self@.len() as int) =~= self@);
    }

    /// The packed commands.
    pub fn get_packed_pipeline(&self) -> (packed: Vec<u8>)
        ensures
            packed@ == packed_pipeline(self@),
    {
        let mut packed: Vec<u8> = Vec::new();
        self.write_packed_pipeline(&mut packed);
        assert(packed@ =~= packed_pipeline(self@));
        packed
    }
}

} // verus!
