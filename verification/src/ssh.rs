//! Commands that go through the socket of an SSH connection which is already up.

use vstd::prelude::*;
use crate::process;
use crate::process::{
    args_of, lossy_text, push_arg, push_code, push_local_path, CommandOutput, Invocation,
    InvocationView, RunFailure,
};
use crate::text;
use crate::text::{concat, push_copy, push_decimal, push_text};

verus! {

/// How long `ssh -O exit` may take, in seconds. The command only talks to the local master over a
/// Unix socket, so it should return almost at once; if it does not, giving up is better than holding
/// up the teardown.
pub const STOP_CONTROL_MASTER_TIMEOUT_SECS: u64 = 5;

/// An exchange with the other side through the socket.
#[derive(Clone, Copy, Debug, PartialEq, Eq, Structural)]
pub enum SshOperation {
    /// A single remote command.
    Command,
    /// A script, piped into `bash -s`.
    Script,
    ScpUpload,
    ScpDownload,
    /// A list of `sftp` commands.
    SftpBatch,
}

/// How loud a line of the log is.
#[derive(Clone, Copy, Debug, PartialEq, Eq, Structural)]
pub enum LogLevel {
    Info,
    Warn,
}

/// A line for the log.
#[derive(Debug)]
pub struct LogLine {
    pub level: LogLevel,
    pub message: String,
}

/// What to ask of SSH to keep a connection alive. What is `None` is left to SSH's own configuration.
#[derive(Clone, Copy, Debug)]
pub struct SshKeepaliveOptions {
    pub server_alive_interval_secs: Option<u64>,
    pub server_alive_count_max: Option<u32>,
    pub tcp_keepalive_enabled: Option<bool>,
}

impl Default for SshKeepaliveOptions {
    fn default() -> (options: Self)
        ensures
            options == no_keepalive(),
    {
        SshKeepaliveOptions {
            server_alive_interval_secs: None,
            server_alive_count_max: None,
            tcp_keepalive_enabled: None,
        }
    }
}

// ---------------------------------------------------------------------------------------------
// Specification
// ---------------------------------------------------------------------------------------------

/// The options that ask for nothing.
pub open spec fn no_keepalive() -> SshKeepaliveOptions {
    SshKeepaliveOptions {
        server_alive_interval_secs: None,
        server_alive_count_max: None,
        tcp_keepalive_enabled: None,
    }
}

/// `-o`, and the setting that it makes.
pub open spec fn setting(text: Seq<char>) -> Seq<Seq<char>> {
    seq!["-o"@, text]
}

pub open spec fn interval_args(interval: Option<u64>) -> Seq<Seq<char>> {
    match interval {
        Some(secs) => setting("ServerAliveInterval="@ + text::decimal(secs as nat)),
        None => Seq::empty(),
    }
}

pub open spec fn count_max_args(count_max: Option<u32>) -> Seq<Seq<char>> {
    match count_max {
        Some(max) => setting("ServerAliveCountMax="@ + text::decimal(max as nat)),
        None => Seq::empty(),
    }
}

pub open spec fn tcp_keepalive_args(enabled: Option<bool>) -> Seq<Seq<char>> {
    match enabled {
        Some(true) => setting("TCPKeepAlive=yes"@),
        Some(false) => setting("TCPKeepAlive=no"@),
        None => Seq::empty(),
    }
}

/// The arguments that the keepalive options add.
pub open spec fn keepalive_args(options: SshKeepaliveOptions) -> Seq<Seq<char>> {
    interval_args(options.server_alive_interval_secs) + count_max_args(
        options.server_alive_count_max,
    ) + tcp_keepalive_args(options.tcp_keepalive_enabled)
}

/// The destination of a command that goes through a socket, where SSH ignores the name.
pub open spec fn placeholder() -> Seq<char> {
    "placeholder@placeholder"@
}

/// The arguments of `ssh` through the socket at `socket_path`.
pub open spec fn multiplexed_ssh_args(
    socket_path: Seq<char>,
    options: SshKeepaliveOptions,
) -> Seq<Seq<char>> {
    seq!["-q"@] + setting("PasswordAuthentication=no"@) + setting("ForwardX11=no"@)
        + keepalive_args(options) + setting("ControlPath="@ + socket_path) + seq![placeholder()]
}

/// The arguments of `scp` and `sftp` through the socket at `socket_path`, up to the files.
pub open spec fn multiplexed_copy_args(
    socket_path: Seq<char>,
    options: SshKeepaliveOptions,
) -> Seq<Seq<char>> {
    setting("ControlPath="@ + socket_path) + setting("ControlMaster=no"@) + setting(
        "PasswordAuthentication=no"@,
    ) + setting("ForwardX11=no"@) + setting("ConnectTimeout=15"@) + keepalive_args(options)
}

/// A file on the other side, as `scp` writes it.
pub open spec fn remote_file(remote_path: Seq<char>) -> Seq<char> {
    "placeholder@placeholder:"@ + remote_path
}

/// A program that is started with `args` and killed when nobody waits for it.
pub open spec fn run(
    program: Seq<char>,
    args: Seq<process::ArgView>,
    stdin: Option<Seq<char>>,
) -> InvocationView {
    InvocationView { program, args, env: Seq::empty(), stdin, kill_on_drop: true }
}

/// What an operation reports where there is no exit status. A command and a copy are started and
/// waited for in one step, and report any error of that step in the same words.
pub open spec fn failure_text(operation: SshOperation, failure: RunFailure) -> Seq<char> {
    match operation {
        SshOperation::Command => match failure {
            RunFailure::TimedOut(after) => "SSH command timed out after "@ + after@,
            RunFailure::Spawn(e) => "SSH command failed to execute: "@ + e@,
            RunFailure::WriteInput(e) => "SSH command failed to execute: "@ + e@,
            RunFailure::Wait(e) => "SSH command failed to execute: "@ + e@,
        },
        SshOperation::Script => match failure {
            RunFailure::TimedOut(after) => "Script timed out after "@ + after@,
            RunFailure::Spawn(e) => "Failed to spawn SSH for script: "@ + e@,
            RunFailure::WriteInput(e) => "Failed to write script to stdin: "@ + e@,
            RunFailure::Wait(e) => "Script failed: "@ + e@,
        },
        SshOperation::ScpUpload => match failure {
            RunFailure::TimedOut(after) => "SCP upload timed out after "@ + after@,
            RunFailure::Spawn(e) => "SCP upload failed to execute: "@ + e@,
            RunFailure::WriteInput(e) => "SCP upload failed to execute: "@ + e@,
            RunFailure::Wait(e) => "SCP upload failed to execute: "@ + e@,
        },
        SshOperation::ScpDownload => match failure {
            RunFailure::TimedOut(after) => "SCP download timed out after "@ + after@,
            RunFailure::Spawn(e) => "SCP download failed to execute: "@ + e@,
            RunFailure::WriteInput(e) => "SCP download failed to execute: "@ + e@,
            RunFailure::Wait(e) => "SCP download failed to execute: "@ + e@,
        },
        SshOperation::SftpBatch => match failure {
            RunFailure::TimedOut(after) => "SFTP batch timed out after "@ + after@,
            RunFailure::Spawn(e) => "Failed to spawn SFTP batch command: "@ + e@,
            RunFailure::WriteInput(e) => "Failed to write SFTP batch to stdin: "@ + e@,
            RunFailure::Wait(e) => "SFTP batch failed: "@ + e@,
        },
    }
}

/// The line on an `ssh -O exit` that ended.
pub open spec fn exit_message(
    socket_path: Seq<char>,
    success: bool,
    code: Option<i32>,
    stderr: Seq<char>,
) -> Seq<char> {
    if success {
        "stop_control_master: `ssh -O exit` succeeded for "@ + socket_path
    } else {
        "stop_control_master: `ssh -O exit` for "@ + socket_path + " exited with "@
            + process::code_text(code) + ": "@ + stderr
    }
}

/// The line on an `ssh -O exit` without an exit status.
pub open spec fn no_exit_message(socket_path: Seq<char>, failure: RunFailure) -> Seq<char> {
    match failure {
        RunFailure::TimedOut(after) => "stop_control_master: `ssh -O exit` for "@ + socket_path
            + " timed out after "@ + after@,
        RunFailure::Spawn(e) => no_spawn_message(socket_path, e@),
        RunFailure::WriteInput(e) => no_spawn_message(socket_path, e@),
        RunFailure::Wait(e) => no_spawn_message(socket_path, e@),
    }
}

pub open spec fn no_spawn_message(socket_path: Seq<char>, error: Seq<char>) -> Seq<char> {
    "stop_control_master: failed to spawn `ssh -O exit` for "@ + socket_path + ": "@ + error
}

/// What a copy that the other side refused reports.
pub open spec fn scp_refusal(upload: bool, stderr: Seq<char>) -> Seq<char> {
    if upload {
        "SCP upload failed: "@ + stderr
    } else {
        "SCP download failed: "@ + stderr
    }
}

// ---------------------------------------------------------------------------------------------
// Argument lists
// ---------------------------------------------------------------------------------------------

/// Puts `-o` and a setting behind the arguments.
pub fn push_setting(args: &mut Vec<String>, text: &str)
    ensures
        text::texts(final(args)@) == text::texts(old(args)@) + setting(text@),
{
    push_copy(args, "-o");
    push_copy(args, text);
    assert(text::texts(args@) =~= text::texts(old(args)@) + setting(text@));
}

/// Puts the arguments of the keepalive options behind others.
pub fn push_keepalive_args(args: &mut Vec<String>, options: &SshKeepaliveOptions)
    ensures
        text::texts(final(args)@) == text::texts(old(args)@) + keepalive_args(*options),
{
    let ghost first = text::texts(args@);
    if let Some(interval) = options.server_alive_interval_secs {
        let mut text = String::new();
        push_text(&mut text, "ServerAliveInterval=");
        push_decimal(&mut text, interval);
        push_setting(args, text.as_str());
    }
    assert(text::texts(args@) =~= first + interval_args(options.server_alive_interval_secs));
    let ghost second = text::texts(args@);
    if let Some(max) = options.server_alive_count_max {
        let mut text = String::new();
        push_text(&mut text, "ServerAliveCountMax=");
        push_decimal(&mut text, max as u64);
        push_setting(args, text.as_str());
    }
    assert(text::texts(args@) =~= second + count_max_args(options.server_alive_count_max));
    let ghost third = text::texts(args@);
    if let Some(enabled) = options.tcp_keepalive_enabled {
        if enabled {
            push_setting(args, "TCPKeepAlive=yes");
        } else {
            push_setting(args, "TCPKeepAlive=no");
        }
    }
    assert(text::texts(args@) =~= third + tcp_keepalive_args(options.tcp_keepalive_enabled));
    assert(text::texts(args@) =~= first + keepalive_args(*options));
}

/// The arguments of `ssh` for a command through the socket of an existing master.
///
/// `socket_path` is the path in the form in which it is shown.
pub fn ssh_args(socket_path: &str) -> (args: Vec<String>)
    ensures
        text::texts(args@) == multiplexed_ssh_args(socket_path@, no_keepalive()),
{
    ssh_args_with_options(socket_path, &SshKeepaliveOptions::default())
}

/// [`ssh_args`], with keepalive options.
pub fn ssh_args_with_options(socket_path: &str, options: &SshKeepaliveOptions) -> (args: Vec<
    String,
>)
    ensures
        text::texts(args@) == multiplexed_ssh_args(socket_path@, *options),
{
    let mut args: Vec<String> = Vec::new();
    push_copy(&mut args, "-q");
    push_setting(&mut args, "PasswordAuthentication=no");
    push_setting(&mut args, "ForwardX11=no");
    push_keepalive_args(&mut args, options);
    push_setting(&mut args, concat("ControlPath=", socket_path).as_str());
    push_copy(&mut args, "placeholder@placeholder");
    assert(text::texts(args@) =~= multiplexed_ssh_args(socket_path@, *options));
    args
}

/// The arguments that `scp` and `sftp` share.
pub fn scp_or_sftp_args(socket_path: &str, options: &SshKeepaliveOptions) -> (args: Vec<String>)
    ensures
        text::texts(args@) == multiplexed_copy_args(socket_path@, *options),
{
    let mut args: Vec<String> = Vec::new();
    push_setting(&mut args, concat("ControlPath=", socket_path).as_str());
    push_setting(&mut args, "ControlMaster=no");
    push_setting(&mut args, "PasswordAuthentication=no");
    push_setting(&mut args, "ForwardX11=no");
    push_setting(&mut args, "ConnectTimeout=15");
    push_keepalive_args(&mut args, options);
    assert(text::texts(args@) =~= multiplexed_copy_args(socket_path@, *options));
    args
}

// ---------------------------------------------------------------------------------------------
// Programs to start
// ---------------------------------------------------------------------------------------------

/// A program without environment variables of its own, killed when nobody waits for it.
fn invocation(
    program: &str,
    args: Vec<process::Arg>,
    stdin: Option<String>,
) -> (run_this: Invocation)
    ensures
        run_this@ == run(
            program@,
            process::arg_views(args@),
            match stdin {
                Some(text) => Some(text@),
                None => None,
            },
        ),
{
    let env: Vec<(String, process::Arg)> = Vec::new();
    assert(process::env_views(env@) =~= Seq::<(Seq<char>, process::ArgView)>::empty());
    Invocation { program: program.to_owned(), args, env, stdin, kill_on_drop: true }
}

/// `ssh -O exit`, which makes the master at `socket_path` exit at once, without waiting for the
/// channels that go through it.
///
/// The user's interactive `ssh` is both the session and the master of the channels. When the remote
/// shell exits, that `ssh` can hang on half-closed channels until the other side has cleaned up;
/// `-O exit` cuts this short. It tears the interactive `ssh` down outright, so it is only safe once
/// the user's shell has exited.
pub fn stop_control_master(socket_path: &str) -> (run_this: Invocation)
    ensures
        run_this@ == run(
            "ssh"@,
            process::text_args(
                seq!["-O"@, "exit"@] + multiplexed_ssh_args(socket_path@, no_keepalive()),
            ),
            None,
        ),
{
    let mut list: Vec<String> = Vec::new();
    push_copy(&mut list, "-O");
    push_copy(&mut list, "exit");
    let mut rest = ssh_args(socket_path);
    let ghost first = list@;
    let ghost second = rest@;
    list.append(&mut rest);
    assert(text::texts(list@) =~= text::texts(first) + text::texts(second));
    assert(text::texts(list@) =~= seq!["-O"@, "exit"@] + multiplexed_ssh_args(
        socket_path@,
        no_keepalive(),
    ));
    invocation("ssh", args_of(list), None)
}

/// A single remote command through the socket.
pub fn run_ssh_command(socket_path: &str, remote_command: &str) -> (run_this: Invocation)
    ensures
        run_this@ == run(
            "ssh"@,
            process::text_args(
                multiplexed_ssh_args(socket_path@, no_keepalive()).push(remote_command@),
            ),
            None,
        ),
{
    run_ssh_command_with_options(socket_path, remote_command, &SshKeepaliveOptions::default())
}

/// [`run_ssh_command`], with keepalive options.
pub fn run_ssh_command_with_options(
    socket_path: &str,
    remote_command: &str,
    options: &SshKeepaliveOptions,
) -> (run_this: Invocation)
    ensures
        run_this@ == run(
            "ssh"@,
            process::text_args(multiplexed_ssh_args(socket_path@, *options).push(remote_command@)),
            None,
        ),
{
    let mut list = ssh_args_with_options(socket_path, options);
    push_copy(&mut list, remote_command);
    invocation("ssh", args_of(list), None)
}

/// A script, piped into `bash -s` on the other side.
///
/// On the standard input the script needs no quoting and may have any length.
pub fn run_ssh_script(socket_path: &str, script: String) -> (run_this: Invocation)
    ensures
        run_this@ == run(
            "ssh"@,
            process::text_args(multiplexed_ssh_args(socket_path@, no_keepalive()).push("bash -s"@)),
            Some(script@),
        ),
{
    run_ssh_script_with_options(socket_path, script, &SshKeepaliveOptions::default())
}

/// [`run_ssh_script`], with keepalive options.
pub fn run_ssh_script_with_options(
    socket_path: &str,
    script: String,
    options: &SshKeepaliveOptions,
) -> (run_this: Invocation)
    ensures
        run_this@ == run(
            "ssh"@,
            process::text_args(multiplexed_ssh_args(socket_path@, *options).push("bash -s"@)),
            Some(script@),
        ),
{
    let mut list = ssh_args_with_options(socket_path, options);
    push_copy(&mut list, "bash -s");
    invocation("ssh", args_of(list), Some(script))
}

/// A copy of a local file to the other side.
pub fn scp_upload(socket_path: &str, remote_path: &str) -> (run_this: Invocation)
    ensures
        run_this@ == run(
            "scp"@,
            process::text_args(multiplexed_copy_args(socket_path@, no_keepalive())).push(None).push(
                Some(remote_file(remote_path@)),
            ),
            None,
        ),
        run_this@.args.last() == Some("placeholder@placeholder:"@ + remote_path@),
{
    scp_upload_with_options(socket_path, remote_path, &SshKeepaliveOptions::default())
}

/// [`scp_upload`], with keepalive options.
pub fn scp_upload_with_options(
    socket_path: &str,
    remote_path: &str,
    options: &SshKeepaliveOptions,
) -> (run_this: Invocation)
    ensures
        run_this@ == run(
            "scp"@,
            process::text_args(multiplexed_copy_args(socket_path@, *options)).push(None).push(
                Some(remote_file(remote_path@)),
            ),
            None,
        ),
        run_this@.args.last() == Some("placeholder@placeholder:"@ + remote_path@),
{
    let mut args = args_of(scp_or_sftp_args(socket_path, options));
    push_local_path(&mut args);
    push_arg(&mut args, concat("placeholder@placeholder:", remote_path).as_str());
    invocation("scp", args, None)
}

/// A copy of a file of the other side to a local path.
pub fn scp_download(
    socket_path: &str,
    remote_path: &str,
    options: &SshKeepaliveOptions,
) -> (run_this: Invocation)
    ensures
        run_this@ == run(
            "scp"@,
            process::text_args(multiplexed_copy_args(socket_path@, *options)).push(
                Some(remote_file(remote_path@)),
            ).push(None),
            None,
        ),
        run_this@.args[run_this@.args.len() - 2] == Some(
            "placeholder@placeholder:"@ + remote_path@,
        ),
{
    let mut args = args_of(scp_or_sftp_args(socket_path, options));
    push_arg(&mut args, concat("placeholder@placeholder:", remote_path).as_str());
    push_local_path(&mut args);
    invocation("scp", args, None)
}

/// A list of `sftp` commands, given on the standard input.
pub fn run_sftp_batch(
    socket_path: &str,
    batch: String,
    options: &SshKeepaliveOptions,
) -> (run_this: Invocation)
    ensures
        run_this@ == run(
            "sftp"@,
            process::text_args(
                multiplexed_copy_args(socket_path@, *options) + seq!["-b"@, "-"@, placeholder()],
            ),
            Some(batch@),
        ),
{
    let mut list = scp_or_sftp_args(socket_path, options);
    push_copy(&mut list, "-b");
    push_copy(&mut list, "-");
    push_copy(&mut list, "placeholder@placeholder");
    assert(text::texts(list@) =~= multiplexed_copy_args(socket_path@, *options) + seq![
        "-b"@,
        "-"@,
        placeholder(),
    ]);
    invocation("sftp", args_of(list), Some(batch))
}

// ---------------------------------------------------------------------------------------------
// What came of them
// ---------------------------------------------------------------------------------------------

/// What an operation reports where there is no exit status.
pub fn failure_message(operation: SshOperation, failure: &RunFailure) -> (message: String)
    ensures
        message@ == failure_text(operation, *failure),
{
    match operation {
        SshOperation::Command => match failure {
            RunFailure::TimedOut(after) => concat("SSH command timed out after ", after.as_str()),
            RunFailure::Spawn(e) => concat("SSH command failed to execute: ", e.as_str()),
            RunFailure::WriteInput(e) => concat("SSH command failed to execute: ", e.as_str()),
            RunFailure::Wait(e) => concat("SSH command failed to execute: ", e.as_str()),
        },
        SshOperation::Script => match failure {
            RunFailure::TimedOut(after) => concat("Script timed out after ", after.as_str()),
            RunFailure::Spawn(e) => concat("Failed to spawn SSH for script: ", e.as_str()),
            RunFailure::WriteInput(e) => concat("Failed to write script to stdin: ", e.as_str()),
            RunFailure::Wait(e) => concat("Script failed: ", e.as_str()),
        },
        SshOperation::ScpUpload => match failure {
            RunFailure::TimedOut(after) => concat("SCP upload timed out after ", after.as_str()),
            RunFailure::Spawn(e) => concat("SCP upload failed to execute: ", e.as_str()),
            RunFailure::WriteInput(e) => concat("SCP upload failed to execute: ", e.as_str()),
            RunFailure::Wait(e) => concat("SCP upload failed to execute: ", e.as_str()),
        },
        SshOperation::ScpDownload => match failure {
            RunFailure::TimedOut(after) => concat("SCP download timed out after ", after.as_str()),
            RunFailure::Spawn(e) => concat("SCP download failed to execute: ", e.as_str()),
            RunFailure::WriteInput(e) => concat("SCP download failed to execute: ", e.as_str()),
            RunFailure::Wait(e) => concat("SCP download failed to execute: ", e.as_str()),
        },
        SshOperation::SftpBatch => match failure {
            RunFailure::TimedOut(after) => concat("SFTP batch timed out after ", after.as_str()),
            RunFailure::Spawn(e) => concat("Failed to spawn SFTP batch command: ", e.as_str()),
            RunFailure::WriteInput(e) => concat("Failed to write SFTP batch to stdin: ", e.as_str()),
            RunFailure::Wait(e) => concat("SFTP batch failed: ", e.as_str()),
        },
    }
}

/// What comes of an operation. Only a failure of the transport is an error: a run that ended is handed
/// on with its exit status, whatever that is.
pub fn run_result(operation: SshOperation, result: Result<CommandOutput, RunFailure>) -> (outcome:
    Result<CommandOutput, String>)
    ensures
        match result {
            Ok(output) => outcome == Ok::<CommandOutput, String>(output),
            Err(failure) => outcome matches Err(message) && message@ == failure_text(
                operation,
                failure,
            ),
        },
{
    match result {
        Ok(output) => Ok(output),
        Err(failure) => Err(failure_message(operation, &failure)),
    }
}

/// What a copy that the other side refused reports, given the text of its error output.
pub fn scp_refusal_message(upload: bool, stderr: &str) -> (message: String)
    ensures
        message@ == scp_refusal(upload, stderr@),
{
    if upload {
        concat("SCP upload failed: ", stderr)
    } else {
        concat("SCP download failed: ", stderr)
    }
}

/// What comes of an `scp` that ended: it succeeded, or its error output says why not.
pub fn scp_result(upload: bool, output: &CommandOutput) -> (result: Result<(), String>)
    ensures
        result is Ok <==> output.success,
        result matches Err(message) ==> message@ == scp_refusal(
            upload,
            process::utf8_lossy(output.stderr@),
        ),
{
    if output.success {
        Ok(())
    } else {
        Err(scp_refusal_message(upload, lossy_text(output.stderr.as_slice()).as_str()))
    }
}

/// What comes of a copy: it succeeded, the other side refused it, or the transport failed.
pub fn copy_result(upload: bool, result: Result<CommandOutput, RunFailure>) -> (outcome: Result<
    (),
    String,
>)
    ensures
        outcome is Ok <==> (result matches Ok(output) && output.success),
        outcome matches Err(message) ==> message@ == (match result {
            Ok(output) => scp_refusal(upload, process::utf8_lossy(output.stderr@)),
            Err(failure) => failure_text(
                if upload {
                    SshOperation::ScpUpload
                } else {
                    SshOperation::ScpDownload
                },
                failure,
            ),
        }),
{
    let operation = if upload {
        SshOperation::ScpUpload
    } else {
        SshOperation::ScpDownload
    };
    match run_result(operation, result) {
        Ok(output) => scp_result(upload, &output),
        Err(message) => Err(message),
    }
}

/// The line on an `ssh -O exit` that ended, given the text of its error output.
pub fn exit_line(socket_path: &str, success: bool, code: Option<i32>, stderr: &str) -> (line:
    LogLine)
    ensures
        line.level == LogLevel::Info,
        line.message@ == exit_message(socket_path@, success, code, stderr@),
{
    let message = if success {
        concat("stop_control_master: `ssh -O exit` succeeded for ", socket_path)
    } else {
        let mut text = concat("stop_control_master: `ssh -O exit` for ", socket_path);
        push_text(&mut text, " exited with ");
        push_code(&mut text, code);
        push_text(&mut text, ": ");
        push_text(&mut text, stderr);
        text
    };
    LogLine { level: LogLevel::Info, message }
}

/// The line on an `ssh -O exit` without an exit status. Only one that took too long is a warning: at
/// teardown nothing useful can be done with any other error.
pub fn no_exit_line(socket_path: &str, failure: &RunFailure) -> (line: LogLine)
    ensures
        line.level == (if failure is TimedOut {
            LogLevel::Warn
        } else {
            LogLevel::Info
        }),
        line.message@ == no_exit_message(socket_path@, *failure),
{
    match failure {
        RunFailure::TimedOut(after) => {
            let mut message = concat("stop_control_master: `ssh -O exit` for ", socket_path);
            push_text(&mut message, " timed out after ");
            push_text(&mut message, after.as_str());
            LogLine { level: LogLevel::Warn, message }
        },
        RunFailure::Spawn(e) => no_spawn_line(socket_path, e.as_str()),
        RunFailure::WriteInput(e) => no_spawn_line(socket_path, e.as_str()),
        RunFailure::Wait(e) => no_spawn_line(socket_path, e.as_str()),
    }
}

fn no_spawn_line(socket_path: &str, error: &str) -> (line: LogLine)
    ensures
        line.level == LogLevel::Info,
        line.message@ == no_spawn_message(socket_path@, error@),
{
    let mut message = concat(
        "stop_control_master: failed to spawn `ssh -O exit` for ",
        socket_path,
    );
    push_text(&mut message, ": ");
    push_text(&mut message, error);
    LogLine { level: LogLevel::Info, message }
}

/// The line that the log gets on an `ssh -O exit`, whatever came of it.
pub fn stop_control_master_line(
    socket_path: &str,
    result: &Result<CommandOutput, RunFailure>,
) -> (line: LogLine)
    ensures
        match *result {
            Ok(output) => line.level == LogLevel::Info && line.message@ == exit_message(
                socket_path@,
                output.success,
                output.code,
                process::utf8_lossy(output.stderr@),
            ),
            Err(failure) => line.message@ == no_exit_message(socket_path@, failure) && line.level
                == (if failure is TimedOut {
                LogLevel::Warn
            } else {
                LogLevel::Info
            }),
        },
{
    match result {
        Ok(output) => {
            let stderr = lossy_text(output.stderr.as_slice());
            exit_line(socket_path, output.success, output.code, stderr.as_str())
        },
        Err(failure) => no_exit_line(socket_path, failure),
    }
}

// ---------------------------------------------------------------------------------------------
// Laws
// ---------------------------------------------------------------------------------------------

/// Options that ask for nothing add nothing.
pub proof fn law_no_options_no_arguments()
    ensures
        keepalive_args(no_keepalive()) == Seq::<Seq<char>>::empty(),
{
    assert(keepalive_args(no_keepalive()) =~= Seq::<Seq<char>>::empty());
}

/// Every option that is set adds two arguments, and one that is not set adds none.
pub proof fn law_each_option_adds_one_setting(options: SshKeepaliveOptions)
    ensures
        keepalive_args(options).len() == 2 * ((if options.server_alive_interval_secs is Some {
            1int
        } else {
            0
        }) + (if options.server_alive_count_max is Some {
            1int
        } else {
            0
        }) + (if options.tcp_keepalive_enabled is Some {
            1int
        } else {
            0
        })),
{
}

/// `args` holds `-o` at `i` and, right behind it, `text`.
pub open spec fn setting_at(args: Seq<Seq<char>>, i: int, text: Seq<char>) -> bool {
    0 <= i < args.len() - 1 && args[i] == "-o"@ && args[i + 1] == text
}

/// `args` holds `-o` and, right behind it, `text`.
pub open spec fn has_setting(args: Seq<Seq<char>>, text: Seq<char>) -> bool {
    exists|i: int| setting_at(args, i, text)
}

/// Whatever the options, nothing that goes through a socket asks for a password, and all of it goes
/// through the socket that was given; `ssh` names its destination last.
pub proof fn law_everything_goes_through_the_socket(
    socket_path: Seq<char>,
    options: SshKeepaliveOptions,
)
    ensures
        has_setting(multiplexed_ssh_args(socket_path, options), "PasswordAuthentication=no"@),
        has_setting(multiplexed_copy_args(socket_path, options), "PasswordAuthentication=no"@),
        has_setting(multiplexed_ssh_args(socket_path, options), "ControlPath="@ + socket_path),
        has_setting(multiplexed_copy_args(socket_path, options), "ControlPath="@ + socket_path),
        multiplexed_ssh_args(socket_path, options).last() == placeholder(),
{
    let ssh = multiplexed_ssh_args(socket_path, options);
    let copy = multiplexed_copy_args(socket_path, options);
    let n = keepalive_args(options).len() as int;
    assert(setting_at(ssh, 1, "PasswordAuthentication=no"@));
    assert(setting_at(copy, 4, "PasswordAuthentication=no"@));
    assert(setting_at(ssh, 5 + n, "ControlPath="@ + socket_path));
    assert(setting_at(copy, 0, "ControlPath="@ + socket_path));
}


/// The arguments of a setting in `args` at `i` are `-o` and a text that is `name` with `value` behind
/// it.
pub open spec fn sets_at(args: Seq<Seq<char>>, i: int, name: Seq<char>, value: Seq<char>) -> bool {
    &&& 0 <= i < args.len() - 1
    &&& args[i] == seq!['-', 'o']
    &&& text::splits(args[i + 1], name, value)
}

/// Each option that is set makes one setting, which gives its value back; the interval comes first, the
/// count next, and the flag last.
pub proof fn law_options_read_back(options: SshKeepaliveOptions)
    ensures
        ({
            let args = keepalive_args(options);
            let a: int = if options.server_alive_interval_secs is Some {
                2
            } else {
                0
            };
            let b: int = if options.server_alive_count_max is Some {
                2
            } else {
                0
            };
            let c: int = if options.tcp_keepalive_enabled is Some {
                2
            } else {
                0
            };
            &&& args.len() == a + b + c
            &&& options.server_alive_interval_secs matches Some(secs) ==> sets_at(
                args,
                0,
                "ServerAliveInterval="@,
                text::decimal(secs as nat),
            )
            &&& options.server_alive_count_max matches Some(max) ==> sets_at(
                args,
                a,
                "ServerAliveCountMax="@,
                text::decimal(max as nat),
            )
            &&& options.tcp_keepalive_enabled matches Some(enabled) ==> sets_at(
                args,
                a + b,
                "TCPKeepAlive="@,
                if enabled {
                    seq!['y', 'e', 's']
                } else {
                    seq!['n', 'o']
                },
            )
        }),
{
    reveal_strlit("-o");
    reveal_strlit("TCPKeepAlive=");
    reveal_strlit("TCPKeepAlive=yes");
    reveal_strlit("TCPKeepAlive=no");
    assert("-o"@ =~= seq!['-', 'o']);
    if let Some(secs) = options.server_alive_interval_secs {
        text::lemma_splits("ServerAliveInterval="@, text::decimal(secs as nat));
    }
    if let Some(max) = options.server_alive_count_max {
        text::lemma_splits("ServerAliveCountMax="@, text::decimal(max as nat));
    }
    let yes = seq!['y', 'e', 's'];
    let no = seq!['n', 'o'];
    text::lemma_splits("TCPKeepAlive="@, yes);
    text::lemma_splits("TCPKeepAlive="@, no);
    assert("TCPKeepAlive="@ + yes =~= "TCPKeepAlive=yes"@);
    assert("TCPKeepAlive="@ + no =~= "TCPKeepAlive=no"@);
}

/// The arguments of `ssh` through a socket, place by place: it is quiet, takes no password, forwards no
/// windows, holds the settings of the options, goes through the socket whose whole path was given,
/// and ends with a destination that does not matter.
pub proof fn law_multiplexed_ssh_place_by_place(
    socket_path: Seq<char>,
    options: SshKeepaliveOptions,
)
    ensures
        ({
            let args = multiplexed_ssh_args(socket_path, options);
            let k = keepalive_args(options).len() as int;
            &&& args.len() == 8 + k
            &&& args[0] == seq!['-', 'q']
            &&& sets_at(args, 1, "PasswordAuthentication="@, seq!['n', 'o'])
            &&& sets_at(args, 3, "ForwardX11="@, seq!['n', 'o'])
            &&& args.subrange(5, 5 + k) == keepalive_args(options)
            &&& sets_at(args, 5 + k, "ControlPath="@, socket_path)
            &&& args[7 + k] == "placeholder@placeholder"@
        }),
{
    reveal_strlit("-o");
    reveal_strlit("-q");
    reveal_strlit("PasswordAuthentication=");
    reveal_strlit("PasswordAuthentication=no");
    reveal_strlit("ForwardX11=");
    reveal_strlit("ForwardX11=no");
    assert("-o"@ =~= seq!['-', 'o']);
    assert("-q"@ =~= seq!['-', 'q']);
    let no = seq!['n', 'o'];
    text::lemma_splits("PasswordAuthentication="@, no);
    text::lemma_splits("ForwardX11="@, no);
    text::lemma_splits("ControlPath="@, socket_path);
    assert("PasswordAuthentication="@ + no =~= "PasswordAuthentication=no"@);
    assert("ForwardX11="@ + no =~= "ForwardX11=no"@);
    let args = multiplexed_ssh_args(socket_path, options);
    let k = keepalive_args(options).len() as int;
    assert(args.subrange(5, 5 + k) =~= keepalive_args(options));
}

/// The arguments of a copy through a socket, place by place: it goes through the socket whose whole path
/// was given, becomes no master, takes no password, forwards no windows, gives up after a while, and
/// ends with the settings of the options.
pub proof fn law_multiplexed_copy_place_by_place(
    socket_path: Seq<char>,
    options: SshKeepaliveOptions,
)
    ensures
        ({
            let args = multiplexed_copy_args(socket_path, options);
            &&& args.len() == 10 + keepalive_args(options).len()
            &&& sets_at(args, 0, "ControlPath="@, socket_path)
            &&& sets_at(args, 2, "ControlMaster="@, seq!['n', 'o'])
            &&& sets_at(args, 4, "PasswordAuthentication="@, seq!['n', 'o'])
            &&& sets_at(args, 6, "ForwardX11="@, seq!['n', 'o'])
            &&& sets_at(args, 8, "ConnectTimeout="@, seq!['1', '5'])
            &&& args.skip(10) == keepalive_args(options)
        }),
{
    reveal_strlit("-o");
    reveal_strlit("PasswordAuthentication=");
    reveal_strlit("PasswordAuthentication=no");
    reveal_strlit("ForwardX11=");
    reveal_strlit("ForwardX11=no");
    reveal_strlit("ControlMaster=");
    reveal_strlit("ControlMaster=no");
    reveal_strlit("ConnectTimeout=");
    reveal_strlit("ConnectTimeout=15");
    assert("-o"@ =~= seq!['-', 'o']);
    let no = seq!['n', 'o'];
    let fifteen = seq!['1', '5'];
    text::lemma_splits("PasswordAuthentication="@, no);
    text::lemma_splits("ForwardX11="@, no);
    text::lemma_splits("ControlMaster="@, no);
    text::lemma_splits("ConnectTimeout="@, fifteen);
    text::lemma_splits("ControlPath="@, socket_path);
    assert("PasswordAuthentication="@ + no =~= "PasswordAuthentication=no"@);
    assert("ForwardX11="@ + no =~= "ForwardX11=no"@);
    assert("ControlMaster="@ + no =~= "ControlMaster=no"@);
    assert("ConnectTimeout="@ + fifteen =~= "ConnectTimeout=15"@);
    let args = multiplexed_copy_args(socket_path, options);
    assert(args.skip(10) =~= keepalive_args(options));
}

/// Whatever the path, a file of the other side is named by the destination, a colon and exactly that
/// path, so that what follows the first colon gives the path back; different paths name different
/// files.
pub proof fn law_remote_path_reads_back(remote_path: Seq<char>, other: Seq<char>)
    ensures
        ({
            let file = remote_file(remote_path);
            let colon = text::position(file, ':') as int;
            &&& colon < file.len() && file[colon] == ':'
            &&& file.take(colon) == "placeholder@placeholder"@
            &&& file.skip(colon + 1) == remote_path
            &&& file.len() == colon + 1 + remote_path.len()
        }),
        remote_file(remote_path) == remote_file(other) ==> remote_path == other,
{
    reveal_strlit("placeholder@placeholder:");
    reveal_strlit("placeholder@placeholder");
    let file = remote_file(remote_path);
    let n = "placeholder@placeholder"@.len() as int;
    assert forall|i: int| 0 <= i < n implies #[trigger] file[i] != ':' by {
        assert(file[i] == "placeholder@placeholder:"@[i]);
    }
    text::lemma_position_is(file, ':', n as nat);
    assert(file.take(n) =~= "placeholder@placeholder"@);
    assert(file.skip(n + 1) =~= remote_path);
    assert(remote_file(other).skip(n + 1) =~= other);
}

/// What goes through a socket runs the given program with the given arguments and input, sees the
/// environment as it is, and dies with whoever waits for it.
pub proof fn law_run_adds_nothing(
    program: Seq<char>,
    args: Seq<process::ArgView>,
    stdin: Option<Seq<char>>,
)
    ensures
        run(program, args, stdin).program == program,
        run(program, args, stdin).args == args,
        run(program, args, stdin).stdin == stdin,
        run(program, args, stdin).env.len() == 0,
        run(program, args, stdin).kill_on_drop,
{
}

/// The time after which a master that does not exit is given up.
pub proof fn law_teardown_waits_five_seconds()
    ensures
        STOP_CONTROL_MASTER_TIMEOUT_SECS == 5,
{
}

/// Every failure is told in words that say what failed and how, with the whole cause, or the time that
/// was too short, right behind them.
pub proof fn law_failures_give_their_cause_back(operation: SshOperation, failure: RunFailure)
    ensures
        ({
            let shown = failure_text(operation, failure);
            match (operation, failure) {
                (SshOperation::Command, RunFailure::TimedOut(e)) => text::splits(
                    shown,
                    "SSH command timed out after "@,
                    e@,
                ),
                (SshOperation::Command, RunFailure::Spawn(e)) => text::splits(
                    shown,
                    "SSH command failed to execute: "@,
                    e@,
                ),
                (SshOperation::Command, RunFailure::WriteInput(e)) => text::splits(
                    shown,
                    "SSH command failed to execute: "@,
                    e@,
                ),
                (SshOperation::Command, RunFailure::Wait(e)) => text::splits(
                    shown,
                    "SSH command failed to execute: "@,
                    e@,
                ),
                (SshOperation::Script, RunFailure::TimedOut(e)) => text::splits(
                    shown,
                    "Script timed out after "@,
                    e@,
                ),
                (SshOperation::Script, RunFailure::Spawn(e)) => text::splits(
                    shown,
                    "Failed to spawn SSH for script: "@,
                    e@,
                ),
                (SshOperation::Script, RunFailure::WriteInput(e)) => text::splits(
                    shown,
                    "Failed to write script to stdin: "@,
                    e@,
                ),
                (SshOperation::Script, RunFailure::Wait(e)) => text::splits(
                    shown,
                    "Script failed: "@,
                    e@,
                ),
                (SshOperation::ScpUpload, RunFailure::TimedOut(e)) => text::splits(
                    shown,
                    "SCP upload timed out after "@,
                    e@,
                ),
                (SshOperation::ScpUpload, RunFailure::Spawn(e)) => text::splits(
                    shown,
                    "SCP upload failed to execute: "@,
                    e@,
                ),
                (SshOperation::ScpUpload, RunFailure::WriteInput(e)) => text::splits(
                    shown,
                    "SCP upload failed to execute: "@,
                    e@,
                ),
                (SshOperation::ScpUpload, RunFailure::Wait(e)) => text::splits(
                    shown,
                    "SCP upload failed to execute: "@,
                    e@,
                ),
                (SshOperation::ScpDownload, RunFailure::TimedOut(e)) => text::splits(
                    shown,
                    "SCP download timed out after "@,
                    e@,
                ),
                (SshOperation::ScpDownload, RunFailure::Spawn(e)) => text::splits(
                    shown,
                    "SCP download failed to execute: "@,
                    e@,
                ),
                (SshOperation::ScpDownload, RunFailure::WriteInput(e)) => text::splits(
                    shown,
                    "SCP download failed to execute: "@,
                    e@,
                ),
                (SshOperation::ScpDownload, RunFailure::Wait(e)) => text::splits(
                    shown,
                    "SCP download failed to execute: "@,
                    e@,
                ),
                (SshOperation::SftpBatch, RunFailure::TimedOut(e)) => text::splits(
                    shown,
                    "SFTP batch timed out after "@,
                    e@,
                ),
                (SshOperation::SftpBatch, RunFailure::Spawn(e)) => text::splits(
                    shown,
                    "Failed to spawn SFTP batch command: "@,
                    e@,
                ),
                (SshOperation::SftpBatch, RunFailure::WriteInput(e)) => text::splits(
                    shown,
                    "Failed to write SFTP batch to stdin: "@,
                    e@,
                ),
                (SshOperation::SftpBatch, RunFailure::Wait(e)) => text::splits(
                    shown,
                    "SFTP batch failed: "@,
                    e@,
                ),
            }
        }),
{
    let e = match failure {
        RunFailure::TimedOut(e) => e@,
        RunFailure::Spawn(e) => e@,
        RunFailure::WriteInput(e) => e@,
        RunFailure::Wait(e) => e@,
    };
    text::lemma_splits("Failed to spawn SFTP batch command: "@, e);
    text::lemma_splits("Failed to spawn SSH for script: "@, e);
    text::lemma_splits("Failed to write SFTP batch to stdin: "@, e);
    text::lemma_splits("Failed to write script to stdin: "@, e);
    text::lemma_splits("SCP download failed to execute: "@, e);
    text::lemma_splits("SCP download timed out after "@, e);
    text::lemma_splits("SCP upload failed to execute: "@, e);
    text::lemma_splits("SCP upload timed out after "@, e);
    text::lemma_splits("SFTP batch failed: "@, e);
    text::lemma_splits("SFTP batch timed out after "@, e);
    text::lemma_splits("SSH command failed to execute: "@, e);
    text::lemma_splits("SSH command timed out after "@, e);
    text::lemma_splits("Script failed: "@, e);
    text::lemma_splits("Script timed out after "@, e);
}

/// A copy that the other side refused gives its error output back, behind words that say which way the
/// copy went.
pub proof fn law_refused_copy_gives_its_reason(upload: bool, stderr: Seq<char>)
    ensures
        upload ==> text::splits(scp_refusal(upload, stderr), "SCP upload failed: "@, stderr),
        !upload ==> text::splits(scp_refusal(upload, stderr), "SCP download failed: "@, stderr),
{
    text::lemma_splits("SCP upload failed: "@, stderr);
    text::lemma_splits("SCP download failed: "@, stderr);
}

/// The line on an `ssh -O exit` names the whole path of the socket. Behind it, where the exit failed,
/// stand the exit code and the whole error output; where it succeeded, nothing.
pub proof fn law_exit_line_tells_all(
    socket_path: Seq<char>,
    success: bool,
    code: Option<i32>,
    stderr: Seq<char>,
)
    ensures
        ({
            let shown = exit_message(socket_path, success, code, stderr);
            let front = "stop_control_master: `ssh -O exit` for "@;
            let rest = shown.skip(front.len() as int).skip(socket_path.len() as int);
            let at = " exited with "@.len() as int;
            let n = process::code_text(code).len() as int;
            &&& success ==> text::splits(
                shown,
                "stop_control_master: `ssh -O exit` succeeded for "@,
                socket_path,
            )
            &&& !success ==> {
                &&& front.is_prefix_of(shown)
                &&& socket_path.is_prefix_of(shown.skip(front.len() as int))
                &&& rest.len() == at + n + 2 + stderr.len()
                &&& rest.take(at) == " exited with "@
                &&& rest.subrange(at, at + n) == process::code_text(code)
                &&& rest[at + n] == ':' && rest[at + n + 1] == ' '
                &&& rest.skip(at + n + 2) == stderr
            }
        }),
{
    let shown = exit_message(socket_path, success, code, stderr);
    let front = "stop_control_master: `ssh -O exit` for "@;
    text::lemma_splits("stop_control_master: `ssh -O exit` succeeded for "@, socket_path);
    if !success {
        reveal_strlit(": ");
        let shown_code = process::code_text(code);
        let at = " exited with "@.len() as int;
        let n = shown_code.len() as int;
        let rest = " exited with "@ + shown_code + ": "@ + stderr;
        assert(front =~= shown.subrange(0, front.len() as int));
        let behind = shown.skip(front.len() as int);
        assert(behind =~= socket_path + rest);
        assert(socket_path =~= behind.subrange(0, socket_path.len() as int));
        assert(behind.skip(socket_path.len() as int) =~= rest);
        assert(rest.take(at) =~= " exited with "@);
        assert(rest.subrange(at, at + n) =~= shown_code);
        assert(rest.skip(at + n + 2) =~= stderr);
    }
}

/// The line on an `ssh -O exit` without an exit status names the whole path of the socket and, behind it,
/// the whole cause or the time that was too short.
pub proof fn law_no_exit_line_tells_all(socket_path: Seq<char>, failure: RunFailure)
    ensures
        ({
            let shown = no_exit_message(socket_path, failure);
            let late = "stop_control_master: `ssh -O exit` for "@;
            let dead = "stop_control_master: failed to spawn `ssh -O exit` for "@;
            match failure {
                RunFailure::TimedOut(e) => late.is_prefix_of(shown) && text::splits(
                    shown.skip(late.len() as int),
                    socket_path,
                    shown.skip(late.len() as int).skip(socket_path.len() as int),
                ) && text::splits(
                    shown.skip(late.len() as int).skip(socket_path.len() as int),
                    " timed out after "@,
                    e@,
                ),
                RunFailure::Spawn(e) => dead.is_prefix_of(shown) && tells(
                    shown.skip(dead.len() as int),
                    socket_path,
                    e@,
                ),
                RunFailure::WriteInput(e) => dead.is_prefix_of(shown) && tells(
                    shown.skip(dead.len() as int),
                    socket_path,
                    e@,
                ),
                RunFailure::Wait(e) => dead.is_prefix_of(shown) && tells(
                    shown.skip(dead.len() as int),
                    socket_path,
                    e@,
                ),
            }
        }),
{
    let shown = no_exit_message(socket_path, failure);
    let late = "stop_control_master: `ssh -O exit` for "@;
    let dead = "stop_control_master: failed to spawn `ssh -O exit` for "@;
    match failure {
        RunFailure::TimedOut(e) => {
            let rest = " timed out after "@ + e@;
            assert(late =~= shown.subrange(0, late.len() as int));
            assert(shown.skip(late.len() as int) =~= socket_path + rest);
            text::lemma_splits(socket_path, rest);
            text::lemma_splits(" timed out after "@, e@);
        },
        RunFailure::Spawn(e) => {
            lemma_tells(shown, dead, socket_path, e@);
        },
        RunFailure::WriteInput(e) => {
            lemma_tells(shown, dead, socket_path, e@);
        },
        RunFailure::Wait(e) => {
            lemma_tells(shown, dead, socket_path, e@);
        },
    }
}

/// `s` is `subject`, a colon and a space, and `reason`.
pub open spec fn tells(s: Seq<char>, subject: Seq<char>, reason: Seq<char>) -> bool {
    let n = subject.len() as int;
    &&& s.len() == n + 2 + reason.len()
    &&& s.take(n) == subject
    &&& s[n] == ':' && s[n + 1] == ' '
    &&& s.skip(n + 2) == reason
}

proof fn lemma_tells(shown: Seq<char>, front: Seq<char>, subject: Seq<char>, reason: Seq<char>)
    requires
        shown == front + subject + ": "@ + reason,
    ensures
        front.is_prefix_of(shown),
        tells(shown.skip(front.len() as int), subject, reason),
{
    reveal_strlit(": ");
    let n = subject.len() as int;
    let s = shown.skip(front.len() as int);
    assert(front =~= shown.subrange(0, front.len() as int));
    assert(s.take(n) =~= subject);
    assert(s.skip(n + 2) =~= reason);
}

} // verus!
