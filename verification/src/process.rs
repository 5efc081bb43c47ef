//! Child processes as plain values: what is to be started, and what came back.

use vstd::prelude::*;
use vstd::utf8::*;
use crate::text;
use crate::text::{push_signed_decimal, push_text};

verus! {

// ---------------------------------------------------------------------------------------------
// What is to be started
// ---------------------------------------------------------------------------------------------

/// An argument of a program, or the value of an environment variable.
#[derive(Debug)]
pub enum Arg {
    Text(String),
    /// A path of this machine that the caller holds and puts in, byte for byte.
    LocalPath,
}

/// A program to start.
#[derive(Debug)]
pub struct Invocation {
    pub program: String,
    pub args: Vec<Arg>,
    pub env: Vec<(String, Arg)>,
    /// What is written to the standard input, which is then closed.
    pub stdin: Option<String>,
    /// Whether the child is killed when nobody waits for it any more.
    pub kill_on_drop: bool,
}

/// An argument seen as a value; `None` is the path that the caller holds.
pub type ArgView = Option<Seq<char>>;

/// An [`Invocation`] seen as a value.
pub struct InvocationView {
    pub program: Seq<char>,
    pub args: Seq<ArgView>,
    pub env: Seq<(Seq<char>, ArgView)>,
    pub stdin: Option<Seq<char>>,
    pub kill_on_drop: bool,
}

impl View for Arg {
    type V = ArgView;

    open spec fn view(&self) -> ArgView {
        match self {
            Arg::Text(text) => Some(text@),
            Arg::LocalPath => None,
        }
    }
}

impl View for Invocation {
    type V = InvocationView;

    open spec fn view(&self) -> InvocationView {
        InvocationView {
            program: self.program@,
            args: arg_views(self.args@),
            env: env_views(self.env@),
            stdin: match self.stdin {
                Some(text) => Some(text@),
                None => None,
            },
            kill_on_drop: self.kill_on_drop,
        }
    }
}

pub open spec fn arg_views(args: Seq<Arg>) -> Seq<ArgView> {
    args.map_values(|a: Arg| a@)
}

pub open spec fn env_views(env: Seq<(String, Arg)>) -> Seq<(Seq<char>, ArgView)> {
    env.map_values(|v: (String, Arg)| (v.0@, v.1@))
}

/// Texts as arguments.
pub open spec fn text_args(args: Seq<Seq<char>>) -> Seq<ArgView> {
    args.map_values(|a: Seq<char>| Some(a))
}

/// Makes arguments of texts.
pub fn args_of(list: Vec<String>) -> (args: Vec<Arg>)
    ensures
        arg_views(args@) == text_args(text::texts(list@)),
{
    let mut args: Vec<Arg> = Vec::new();
    for i in 0..list.len()
        invariant
            arg_views(args@) == text_args(text::texts(list@)).take(i as int),
    {
        let ghost before = arg_views(args@);
        let arg = Arg::Text(list[i].clone());
        args.push(arg);
        assert(arg_views(args@) =~= before.push(Some(list@[i as int]@)));
    }
    args
}

/// Puts a text behind the arguments.
pub fn push_arg(args: &mut Vec<Arg>, text: &str)
    ensures
        arg_views(final(args)@) == arg_views(old(args)@).push(Some(text@)),
{
    args.push(Arg::Text(text.to_owned()));
    assert(arg_views(args@) =~= arg_views(old(args)@).push(Some(text@)));
}

/// Puts the path that the caller holds behind the arguments.
pub fn push_local_path(args: &mut Vec<Arg>)
    ensures
        arg_views(final(args)@) == arg_views(old(args)@).push(None),
{
    args.push(Arg::LocalPath);
    assert(arg_views(args@) =~= arg_views(old(args)@).push(None));
}

// ---------------------------------------------------------------------------------------------
// What came back
// ---------------------------------------------------------------------------------------------

/// What a child process left behind when it ended.
#[derive(Debug)]
pub struct CommandOutput {
    /// Whether the exit status is that of a success.
    pub success: bool,
    /// The exit code; a child that a signal ended has none.
    pub code: Option<i32>,
    pub stdout: Vec<u8>,
    pub stderr: Vec<u8>,
}

/// Why there is no [`CommandOutput`]. The texts are those of the system's errors.
#[derive(Debug)]
pub enum RunFailure {
    /// The program could not be started.
    Spawn(String),
    /// Its standard input could not be written.
    WriteInput(String),
    /// It could not be waited for.
    Wait(String),
    /// It took longer than the given time, here as a text such as `60s`.
    TimedOut(String),
}

/// The text that a run of bytes is shown as, with the replacement character in place of what is no
/// UTF-8.
pub uninterp spec fn utf8_lossy(bytes: Seq<u8>) -> Seq<char>;

/// `String::from_utf8_lossy`. The text depends on the bytes alone, and bytes that are UTF-8 give the
/// characters that they encode. How many replacement characters other bytes give is not said.
#[verifier::external_body]
pub(crate) fn lossy_text(bytes: &[u8]) -> (text: String)
    ensures
        text@ == utf8_lossy(bytes@),
        valid_utf8(bytes@) ==> text@ == decode_utf8(bytes@),
{
    String::from_utf8_lossy(bytes).into_owned()
}

/// The text that a length of time is shown as.
pub uninterp spec fn duration_debug(secs: u64, nanos: u32) -> Seq<char>;

/// The `Debug` form of `std::time::Duration::new(secs, nanos)`, such as `60s` or `1.5ms`. The text
/// depends on the two numbers alone. The bound keeps out the carry in `Duration::new`, which can
/// overflow.
#[verifier::external_body]
pub(crate) fn duration_text(secs: u64, nanos: u32) -> (text: String)
    requires
        nanos < 1_000_000_000,
    ensures
        text@ == duration_debug(secs, nanos),
{
    format!("{:?}", std::time::Duration::new(secs, nanos))
}

/// The failure of a child that took longer than the given time.
pub fn timed_out(secs: u64, nanos: u32) -> (failure: RunFailure)
    requires
        nanos < 1_000_000_000,
    ensures
        failure matches RunFailure::TimedOut(after) && after@ == duration_debug(secs, nanos),
{
    RunFailure::TimedOut(duration_text(secs, nanos))
}

/// An exit code in the form `Some(1)` or `None`.
pub open spec fn code_text(code: Option<i32>) -> Seq<char> {
    match code {
        Some(code) => "Some("@ + text::signed_decimal(code as int) + ")"@,
        None => "None"@,
    }
}

/// Puts an exit code behind a text.
pub fn push_code(text: &mut String, code: Option<i32>)
    ensures
        final(text)@ == old(text)@ + code_text(code),
{
    let ghost before = text@;
    match code {
        Some(code) => {
            push_text(text, "Some(");
            push_signed_decimal(text, code);
            push_text(text, ")");
            assert(text@ =~= before + ("Some("@ + text::signed_decimal(code as int) + ")"@));
        },
        None => {
            push_text(text, "None");
        },
    }
}

/// A truth value in the form `true` or `false`.
pub open spec fn bool_text(b: bool) -> Seq<char> {
    if b {
        "true"@
    } else {
        "false"@
    }
}

// ---------------------------------------------------------------------------------------------
// Laws
// ---------------------------------------------------------------------------------------------

/// Nothing of an invocation is lost where it is seen as a value.
pub proof fn law_invocation_is_seen_whole(invocation: Invocation, i: int)
    ensures
        invocation@.program == invocation.program@,
        invocation@.kill_on_drop == invocation.kill_on_drop,
        invocation@.stdin is Some <==> invocation.stdin is Some,
        invocation.stdin is Some ==> invocation@.stdin->0 == invocation.stdin->0@,
        invocation@.args.len() == invocation.args@.len(),
        0 <= i < invocation.args@.len() ==> match invocation.args@[i] {
            Arg::Text(text) => invocation@.args[i] == Some(text@),
            Arg::LocalPath => invocation@.args[i] is None,
        },
        invocation@.env.len() == invocation.env@.len(),
        0 <= i < invocation.env@.len() ==> invocation@.env[i].0 == invocation.env@[i].0@ && match
            invocation.env@[i].1 {
            Arg::Text(text) => invocation@.env[i].1 == Some(text@),
            Arg::LocalPath => invocation@.env[i].1 is None,
        },
{
}

/// Texts become arguments one by one.
pub proof fn law_texts_become_arguments(args: Seq<Seq<char>>, i: int)
    ensures
        text_args(args).len() == args.len(),
        0 <= i < args.len() ==> text_args(args)[i] == Some(args[i]),
{
}

/// An exit code stands between `Some(` and `)`, and reads back from there.
pub proof fn law_exit_code_reads_back(code: Option<i32>)
    ensures
        code is None ==> code_text(code) == "None"@,
        code is Some ==> ({
            let shown = code_text(code);
            let n = shown.len() as int;
            let digits = shown.subrange(5, n - 1);
            &&& n > 6 && shown.take(5) == seq!['S', 'o', 'm', 'e', '('] && shown[n - 1] == ')'
            &&& code->0 >= 0 ==> text::read_digits(digits) == code->0 && digits == text::decimal(
                code->0 as nat,
            )
            &&& code->0 < 0 ==> digits[0] == '-' && text::read_digits(digits.skip(1)) == -code->0
                && digits.skip(1) == text::decimal((-code->0) as nat)
        }),
{
    if code is Some {
        reveal_strlit("Some(");
        reveal_strlit(")");
        let inner = text::signed_decimal(code->0 as int);
        text::law_signed_decimal_reads_back(code->0 as int);
        if code->0 >= 0 {
            text::law_decimal_reads_back(code->0 as nat);
        } else {
            text::law_decimal_reads_back((-code->0) as nat);
        }
        let shown = code_text(code);
        assert(shown.take(5) =~= seq!['S', 'o', 'm', 'e', '(']);
        assert(shown.subrange(5, shown.len() - 1) =~= inner);
    }
}

/// A truth value is shown as the word for it.
pub proof fn law_truth_values_are_words(b: bool)
    ensures
        b ==> bool_text(b) == seq!['t', 'r', 'u', 'e'],
        !b ==> bool_text(b) == seq!['f', 'a', 'l', 's', 'e'],
{
    reveal_strlit("true");
    reveal_strlit("false");
    assert(b ==> bool_text(b) =~= seq!['t', 'r', 'u', 'e']);
    assert(!b ==> bool_text(b) =~= seq!['f', 'a', 'l', 's', 'e']);
}

} // verus!
