//! The hosts whose files are browsed, and the programs that reach them directly.

use vstd::hash_map::StringHashMap;
use vstd::prelude::*;
use crate::ids::HostId;
use crate::process;
use crate::process::{args_of, Arg, CommandOutput, Invocation, InvocationView, RunFailure};
use crate::sftp_listing;
use crate::sftp_listing::quote_sftp_path;
use crate::ssh;
use crate::ssh::{push_keepalive_args, push_setting, SshKeepaliveOptions};
use crate::text;
use crate::text::{
    chars_of, concat, push_copy, push_decimal, push_text, replace_char, text_of,
};

verus! {

/// How long a connection may take to come up, in seconds.
pub const SFTP_CONNECT_TIMEOUT_SECS: u64 = 15;

/// How long a batch or a command may take, in seconds.
pub const SFTP_OPERATION_TIMEOUT_SECS: u64 = 60;

/// How a server knows its user.
#[derive(Clone, Copy, Debug, PartialEq, Eq, Structural)]
pub enum AuthType {
    Password,
    Key,
}

/// What the secret store keeps of a server.
#[derive(Clone, Copy, Debug, PartialEq, Eq, Structural)]
pub enum SecretKind {
    Password,
    /// The passphrase of a key.
    Passphrase,
}

/// A server of the SSH manager.
#[derive(Debug)]
pub struct SshServerInfo {
    pub node_id: String,
    pub host: String,
    pub port: u16,
    /// Empty where SSH is to decide.
    pub username: String,
    pub auth_type: AuthType,
    pub key_path: Option<String>,
}

impl Clone for SshServerInfo {
    fn clone(&self) -> (copy: Self)
        ensures
            copy == *self,
    {
        SshServerInfo {
            node_id: self.node_id.clone(),
            host: self.host.clone(),
            port: self.port,
            username: self.username.clone(),
            auth_type: self.auth_type,
            key_path: match &self.key_path {
                Some(path) => Some(path.clone()),
                None => None,
            },
        }
    }
}

// ---------------------------------------------------------------------------------------------
// Arguments
// ---------------------------------------------------------------------------------------------

/// The user and the host of a server, as SSH writes them.
pub open spec fn destination(server: SshServerInfo) -> Seq<char> {
    if server.username@.len() == 0 {
        server.host@
    } else {
        server.username@ + "@"@ + server.host@
    }
}

/// The arguments for a port other than SSH's own.
pub open spec fn port_args(server: SshServerInfo, port_flag: Seq<char>) -> Seq<Seq<char>> {
    if server.port != 22 {
        seq![port_flag, text::decimal(server.port as nat)]
    } else {
        Seq::empty()
    }
}

/// The arguments for a key, where the server takes one and its file is known.
pub open spec fn key_args(server: SshServerInfo) -> Seq<Seq<char>> {
    match (server.auth_type, server.key_path) {
        (AuthType::Key, Some(path)) => if path@.len() > 0 {
            seq!["-i"@, path@]
        } else {
            Seq::empty()
        },
        _ => Seq::empty(),
    }
}

/// The arguments that lead a program to a server. The programs differ in how they name a port.
pub open spec fn server_args(
    server: SshServerInfo,
    keepalive: SshKeepaliveOptions,
    port_flag: Seq<char>,
) -> Seq<Seq<char>> {
    ssh::setting("BatchMode=no"@) + ssh::setting("StrictHostKeyChecking=accept-new"@)
        + ssh::setting("ConnectTimeout="@ + text::decimal(SFTP_CONNECT_TIMEOUT_SECS as nat))
        + ssh::keepalive_args(keepalive) + port_args(server, port_flag) + key_args(server) + seq![
        destination(server),
    ]
}

fn args_to_server(
    server: &SshServerInfo,
    keepalive: &SshKeepaliveOptions,
    port_flag: &str,
) -> (args: Vec<String>)
    ensures
        text::texts(args@) == server_args(*server, *keepalive, port_flag@),
{
    let mut args: Vec<String> = Vec::new();
    push_setting(&mut args, "BatchMode=no");
    push_setting(&mut args, "StrictHostKeyChecking=accept-new");
    let mut timeout = String::new();
    push_text(&mut timeout, "ConnectTimeout=");
    push_decimal(&mut timeout, SFTP_CONNECT_TIMEOUT_SECS);
    push_setting(&mut args, timeout.as_str());
    push_keepalive_args(&mut args, keepalive);
    let ghost so_far = text::texts(args@);
    if server.port != 22 {
        push_copy(&mut args, port_flag);
        let mut port = String::new();
        push_decimal(&mut port, server.port as u64);
        assert(port@ =~= text::decimal(server.port as nat));
        push_copy(&mut args, port.as_str());
    }
    assert(text::texts(args@) =~= so_far + port_args(*server, port_flag@));
    let ghost so_far = text::texts(args@);
    if server.auth_type == AuthType::Key {
        if let Some(path) = &server.key_path {
            if !path.as_str().is_empty() {
                push_copy(&mut args, "-i");
                push_copy(&mut args, path.as_str());
            }
        }
    }
    assert(text::texts(args@) =~= so_far + key_args(*server));
    if server.username.as_str().is_empty() {
        push_copy(&mut args, server.host.as_str());
    } else {
        let mut name = concat(server.username.as_str(), "@");
        push_text(&mut name, server.host.as_str());
        push_copy(&mut args, name.as_str());
    }
    assert(text::texts(args@) =~= server_args(*server, *keepalive, port_flag@));
    args
}

/// The arguments that lead `sftp` to a server.
pub fn sftp_args(server: &SshServerInfo, keepalive: &SshKeepaliveOptions) -> (args: Vec<String>)
    ensures
        text::texts(args@) == server_args(*server, *keepalive, "-P"@),
{
    args_to_server(server, keepalive, "-P")
}

/// The arguments that lead `ssh` to a server.
pub fn ssh_args(server: &SshServerInfo, keepalive: &SshKeepaliveOptions) -> (args: Vec<String>)
    ensures
        text::texts(args@) == server_args(*server, *keepalive, "-p"@),
{
    args_to_server(server, keepalive, "-p")
}

// ---------------------------------------------------------------------------------------------
// Secrets
// ---------------------------------------------------------------------------------------------

/// The shells that can run a script.
#[derive(Clone, Copy, Debug, PartialEq, Eq, Structural)]
pub enum ScriptHost {
    Windows,
    Unix,
}

/// A script that prints a secret when SSH asks for it.
#[derive(Debug)]
pub struct AskpassScript {
    /// The end of the file's name.
    pub suffix: String,
    pub content: String,
    /// The permissions of the file, where the system has such.
    pub mode: Option<u32>,
}

/// The text of the script.
pub open spec fn askpass_content(host: ScriptHost, secret: Seq<char>) -> Seq<char> {
    match host {
        ScriptHost::Windows => "@echo off\n"@ + "echo "@ + secret + "\n"@,
        ScriptHost::Unix => "#!/bin/sh\n"@ + "printf '%s\\n' "@ + shell_word(secret) + "\n"@,
    }
}

/// A text as a word of a POSIX shell: in single quotes, with every single quote of its own in double
/// quotes between them.
pub open spec fn shell_word(secret: Seq<char>) -> Seq<char> {
    seq!['\''] + text::replace(secret, '\'', seq!['\'', '"', '\'', '"', '\'']) + seq!['\'']
}

/// The kind of secret that a server needs.
pub fn secret_kind(auth_type: AuthType) -> (kind: SecretKind)
    ensures
        kind == (match auth_type {
            AuthType::Password => SecretKind::Password,
            AuthType::Key => SecretKind::Passphrase,
        }),
{
    match auth_type {
        AuthType::Password => SecretKind::Password,
        AuthType::Key => SecretKind::Passphrase,
    }
}

/// The secret in an answer of the secret store. A store that fails is as one that holds none.
pub fn secret_of(answer: Result<Option<String>, String>) -> (secret: Option<String>)
    ensures
        secret == (match answer {
            Ok(found) => found,
            Err(_) => None,
        }),
{
    match answer {
        Ok(found) => found,
        Err(_) => None,
    }
}

/// The script that prints `secret`. On Unix only its owner may read, change and run it.
pub fn create_askpass_script(host: ScriptHost, secret: &str) -> (script: AskpassScript)
    ensures
        script.content@ == askpass_content(host, secret@),
        host == ScriptHost::Windows ==> script.suffix@ == ".cmd"@ && script.mode is None,
        host == ScriptHost::Unix ==> script.suffix@ == ".sh"@ && script.mode == Some(0o700u32),
{
    match host {
        ScriptHost::Windows => {
            let mut content = concat("@echo off\n", "echo ");
            push_text(&mut content, secret);
            push_text(&mut content, "\n");
            AskpassScript { suffix: ".cmd".to_owned(), content, mode: None }
        },
        ScriptHost::Unix => {
            proof {
                reveal_strlit("'\"'\"'");
                assert("'\"'\"'"@ =~= seq!['\'', '"', '\'', '"', '\'']);
            }
            let inner = replace_char(chars_of(secret).as_slice(), '\'', "'\"'\"'");
            let mut content = concat("#!/bin/sh\n", "printf '%s\\n' ");
            content.push('\'');
            push_text(&mut content, text_of(inner.as_slice()).as_str());
            content.push('\'');
            push_text(&mut content, "\n");
            assert(content@ =~= askpass_content(host, secret@));
            AskpassScript { suffix: ".sh".to_owned(), content, mode: Some(0o700u32) }
        },
    }
}

/// The script for the secret of a server, if the store holds one that is not empty.
pub fn askpass_script(host: ScriptHost, secret: &Option<String>) -> (script: Option<AskpassScript>)
    ensures
        script is Some <==> (*secret is Some && (*secret)->0@.len() > 0),
        script matches Some(s) ==> {
            &&& s.content@ == askpass_content(host, (*secret)->0@)
            &&& host == ScriptHost::Windows ==> s.suffix@ == ".cmd"@ && s.mode is None
            &&& host == ScriptHost::Unix ==> s.suffix@ == ".sh"@ && s.mode == Some(0o700u32)
        },
{
    match secret {
        Some(secret) => if secret.as_str().is_empty() {
            None
        } else {
            Some(create_askpass_script(host, secret.as_str()))
        },
        None => None,
    }
}

// ---------------------------------------------------------------------------------------------
// Programs to start
// ---------------------------------------------------------------------------------------------

/// The environment that makes SSH take a secret from a script, whose path the caller holds.
pub open spec fn askpass_env(askpass: bool) -> Seq<(Seq<char>, process::ArgView)> {
    if askpass {
        seq![
            ("SSH_ASKPASS"@, None),
            ("SSH_ASKPASS_REQUIRE"@, Some("force"@)),
            ("DISPLAY"@, Some("openwarp"@)),
        ]
    } else {
        Seq::empty()
    }
}

fn env_for(askpass: bool) -> (env: Vec<(String, Arg)>)
    ensures
        process::env_views(env@) == askpass_env(askpass),
{
    let mut env: Vec<(String, Arg)> = Vec::new();
    if askpass {
        env.push(("SSH_ASKPASS".to_owned(), Arg::LocalPath));
        env.push(("SSH_ASKPASS_REQUIRE".to_owned(), Arg::Text("force".to_owned())));
        env.push(("DISPLAY".to_owned(), Arg::Text("openwarp".to_owned())));
    }
    assert(process::env_views(env@) =~= askpass_env(askpass));
    env
}

/// `sftp` to a server, with a list of commands on its standard input.
pub open spec fn sftp_run(
    server: SshServerInfo,
    batch: Seq<char>,
    keepalive: SshKeepaliveOptions,
    askpass: bool,
) -> InvocationView {
    InvocationView {
        program: "sftp"@,
        args: process::text_args(server_args(server, keepalive, "-P"@) + seq!["-b"@, "-"@]),
        env: askpass_env(askpass),
        stdin: Some(batch),
        kill_on_drop: false,
    }
}

/// `ssh` to a server, with a command for it.
pub open spec fn ssh_run(
    server: SshServerInfo,
    remote_command: Seq<char>,
    keepalive: SshKeepaliveOptions,
    askpass: bool,
) -> InvocationView {
    InvocationView {
        program: "ssh"@,
        args: process::text_args(server_args(server, keepalive, "-p"@).push(remote_command)),
        env: askpass_env(askpass),
        stdin: None,
        kill_on_drop: false,
    }
}

/// `sftp` to a server, with a list of commands on its standard input. `askpass` says whether a script
/// is at hand for the secret of the server.
pub fn run_sftp_batch(
    server: &SshServerInfo,
    batch: String,
    keepalive: &SshKeepaliveOptions,
    askpass: bool,
) -> (run_this: Invocation)
    ensures
        run_this@ == sftp_run(*server, batch@, *keepalive, askpass),
{
    let mut list = sftp_args(server, keepalive);
    push_copy(&mut list, "-b");
    push_copy(&mut list, "-");
    assert(text::texts(list@) =~= server_args(*server, *keepalive, "-P"@) + seq!["-b"@, "-"@]);
    Invocation {
        program: "sftp".to_owned(),
        args: args_of(list),
        env: env_for(askpass),
        stdin: Some(batch),
        kill_on_drop: false,
    }
}

/// `ssh` to a server, with a command for it.
pub fn run_ssh_command(
    server: &SshServerInfo,
    remote_command: &str,
    keepalive: &SshKeepaliveOptions,
    askpass: bool,
) -> (run_this: Invocation)
    ensures
        run_this@ == ssh_run(*server, remote_command@, *keepalive, askpass),
{
    let mut list = ssh_args(server, keepalive);
    push_copy(&mut list, remote_command);
    Invocation {
        program: "ssh".to_owned(),
        args: args_of(list),
        env: env_for(askpass),
        stdin: None,
        kill_on_drop: false,
    }
}

// ---------------------------------------------------------------------------------------------
// The hosts
// ---------------------------------------------------------------------------------------------

/// What is to be done on a host.
#[derive(Debug)]
pub enum RemoteWork {
    /// Commands for `sftp`.
    SftpBatch(String),
    /// A command for the shell of the host.
    SshCommand(String),
}

/// Work for a server.
#[derive(Debug)]
pub struct HostRequest {
    pub server: SshServerInfo,
    pub work: RemoteWork,
    pub timeout_secs: u64,
}

/// What a request for work reports where there is no exit status. The text of the system's error is
/// not part of it.
pub open spec fn failure_text(work: RemoteWork, failure: RunFailure) -> Seq<char> {
    match work {
        RemoteWork::SftpBatch(_) => match failure {
            RunFailure::Spawn(_) => "failed to spawn sftp"@,
            RunFailure::WriteInput(_) => "failed to write sftp batch"@,
            RunFailure::Wait(_) => "failed to collect sftp output"@,
            RunFailure::TimedOut(after) => "sftp batch timed out after "@ + after@,
        },
        RemoteWork::SshCommand(_) => match failure {
            RunFailure::Spawn(_) => "failed to collect ssh output"@,
            RunFailure::WriteInput(_) => "failed to collect ssh output"@,
            RunFailure::Wait(_) => "failed to collect ssh output"@,
            RunFailure::TimedOut(after) => "ssh command timed out after "@ + after@,
        },
    }
}

/// What a request for work reports where there is no exit status.
pub fn failure_message(work: &RemoteWork, failure: &RunFailure) -> (message: String)
    ensures
        message@ == failure_text(*work, *failure),
{
    match work {
        RemoteWork::SftpBatch(_) => match failure {
            RunFailure::Spawn(_) => "failed to spawn sftp".to_owned(),
            RunFailure::WriteInput(_) => "failed to write sftp batch".to_owned(),
            RunFailure::Wait(_) => "failed to collect sftp output".to_owned(),
            RunFailure::TimedOut(after) => concat("sftp batch timed out after ", after.as_str()),
        },
        RemoteWork::SshCommand(_) => match failure {
            RunFailure::Spawn(_) => "failed to collect ssh output".to_owned(),
            RunFailure::WriteInput(_) => "failed to collect ssh output".to_owned(),
            RunFailure::Wait(_) => "failed to collect ssh output".to_owned(),
            RunFailure::TimedOut(after) => concat("ssh command timed out after ", after.as_str()),
        },
    }
}

/// Why work was not done.
#[derive(Debug)]
pub struct WorkFailure {
    pub message: String,
    /// The text of the system's error, where there was one.
    pub cause: Option<String>,
}

/// What comes of work on a host. Only where there is no exit status is there an error: a run that ended
/// is handed on with its exit status, whatever that is.
pub fn work_result(work: &RemoteWork, result: Result<CommandOutput, RunFailure>) -> (outcome: Result<
    CommandOutput,
    WorkFailure,
>)
    ensures
        match result {
            Ok(output) => outcome == Ok::<CommandOutput, WorkFailure>(output),
            Err(failure) => {
                &&& outcome matches Err(e)
                &&& e.message@ == failure_text(*work, failure)
                &&& e.cause == (match failure {
                    RunFailure::Spawn(cause) => Some(cause),
                    RunFailure::WriteInput(cause) => Some(cause),
                    RunFailure::Wait(cause) => Some(cause),
                    RunFailure::TimedOut(_) => None,
                })
            },
        },
{
    match result {
        Ok(output) => Ok(output),
        Err(failure) => {
            let message = failure_message(work, &failure);
            let cause = match failure {
                RunFailure::Spawn(cause) => Some(cause),
                RunFailure::WriteInput(cause) => Some(cause),
                RunFailure::Wait(cause) => Some(cause),
                RunFailure::TimedOut(_) => None,
            };
            Err(WorkFailure { message, cause })
        },
    }
}

/// `request` asks `server` for the batch `batch`.
pub open spec fn asks_for_batch(
    request: HostRequest,
    server: SshServerInfo,
    batch: Seq<char>,
) -> bool {
    &&& request.server == server
    &&& request.work matches RemoteWork::SftpBatch(text) && text@ == batch
    &&& request.timeout_secs == SFTP_OPERATION_TIMEOUT_SECS
}

/// `request` asks `server` for the command `command`.
pub open spec fn asks_for_command(
    request: HostRequest,
    server: SshServerInfo,
    command: Seq<char>,
) -> bool {
    &&& request.server == server
    &&& request.work matches RemoteWork::SshCommand(text) && text@ == command
    &&& request.timeout_secs == SFTP_OPERATION_TIMEOUT_SECS
}

/// The batch that lists a directory.
pub open spec fn list_batch(dir_path: Seq<char>) -> Seq<char> {
    "ls -la "@ + sftp_listing::quoted(dir_path) + "\n"@
}

/// The batch that lists the directory which `sftp` starts in.
pub open spec fn initial_batch() -> Seq<char> {
    "pwd\nls -la .\n"@
}

/// The name of the host of a node.
pub open spec fn host_of_node(node_id: Seq<char>) -> Seq<char> {
    "ssh-manager-sftp:"@ + node_id
}

/// The request for a batch on a server.
pub fn run_sftp_batch_for_server(server: SshServerInfo, batch: String) -> (request: HostRequest)
    ensures
        asks_for_batch(request, server, batch@),
{
    HostRequest {
        server,
        work: RemoteWork::SftpBatch(batch),
        timeout_secs: SFTP_OPERATION_TIMEOUT_SECS,
    }
}

/// The request for a command on a server.
pub fn run_ssh_command_for_server(server: SshServerInfo, remote_command: String) -> (request:
    HostRequest)
    ensures
        asks_for_command(request, server, remote_command@),
{
    HostRequest {
        server,
        work: RemoteWork::SshCommand(remote_command),
        timeout_secs: SFTP_OPERATION_TIMEOUT_SECS,
    }
}

/// The program that does what a request asks for. `askpass` says whether a script is at hand for the
/// secret of the server.
pub fn invocation_for(
    request: &HostRequest,
    keepalive: &SshKeepaliveOptions,
    askpass: bool,
) -> (run_this: Invocation)
    ensures
        run_this@ == (match request.work {
            RemoteWork::SftpBatch(batch) => sftp_run(
                request.server,
                batch@,
                *keepalive,
                askpass,
            ),
            RemoteWork::SshCommand(command) => ssh_run(
                request.server,
                command@,
                *keepalive,
                askpass,
            ),
        }),
{
    match &request.work {
        RemoteWork::SftpBatch(batch) => run_sftp_batch(
            &request.server,
            batch.clone(),
            keepalive,
            askpass,
        ),
        RemoteWork::SshCommand(command) => run_ssh_command(
            &request.server,
            command.as_str(),
            keepalive,
            askpass,
        ),
    }
}

/// The servers that are browsed, by the names of their hosts.
pub struct SftpBrowserModel {
    hosts: StringHashMap<SshServerInfo>,
}

impl View for SftpBrowserModel {
    type V = Map<Seq<char>, SshServerInfo>;

    closed spec fn view(&self) -> Map<Seq<char>, SshServerInfo> {
        self.hosts@
    }
}

impl SftpBrowserModel {
    /// A model without hosts.
    pub fn new() -> (model: Self)
        ensures
            model@ == Map::<Seq<char>, SshServerInfo>::empty(),
    {
        SftpBrowserModel { hosts: StringHashMap::new() }
    }

    /// The host of a node.
    pub fn host_id_for_node(node_id: &str) -> (host_id: HostId)
        ensures
            host_id@ == host_of_node(node_id@),
    {
        HostId::new(concat("ssh-manager-sftp:", node_id))
    }

    /// Takes a server on, in place of the one that its node had. The result is its host and the
    /// request for the first listing.
    pub fn connect(&mut self, server: SshServerInfo) -> (first: (HostId, HostRequest))
        ensures
            final(self)@ == old(self)@.insert(host_of_node(server.node_id@), server),
            first.0@ == host_of_node(server.node_id@),
            asks_for_batch(first.1, server, initial_batch()),
    {
        let host_id = Self::host_id_for_node(server.node_id.as_str());
        let request = run_sftp_batch_for_server(server.clone(), "pwd\nls -la .\n".to_owned());
        self.hosts.insert(host_id.value.clone(), server);
        (host_id, request)
    }

    /// Whether a host is browsed.
    pub fn is_managed_host(&self, host_id: &HostId) -> (managed: bool)
        ensures
            managed == self@.contains_key(host_id@),
    {
        self.hosts.contains_key(host_id.as_str())
    }

    /// The server of a host.
    pub fn server_for_host(&self, host_id: &HostId) -> (server: Option<SshServerInfo>)
        ensures
            match server {
                Some(s) => self@.contains_key(host_id@) && s == self@[host_id@],
                None => !self@.contains_key(host_id@),
            },
    {
        match self.hosts.get(host_id.as_str()) {
            Some(server) => Some(server.clone()),
            None => None,
        }
    }

    /// The request for a batch on a host; none where the host is not browsed.
    pub fn run_batch_for_host(&self, host_id: &HostId, batch: String) -> (request: Option<
        HostRequest,
    >)
        ensures
            match request {
                Some(r) => self@.contains_key(host_id@) && asks_for_batch(
                    r,
                    self@[host_id@],
                    batch@,
                ),
                None => !self@.contains_key(host_id@),
            },
    {
        match self.server_for_host(host_id) {
            Some(server) => Some(run_sftp_batch_for_server(server, batch)),
            None => None,
        }
    }

    /// The request for a command on a host; none where the host is not browsed.
    pub fn run_ssh_command_for_host(&self, host_id: &HostId, remote_command: String) -> (request:
        Option<HostRequest>)
        ensures
            match request {
                Some(r) => self@.contains_key(host_id@) && asks_for_command(
                    r,
                    self@[host_id@],
                    remote_command@,
                ),
                None => !self@.contains_key(host_id@),
            },
    {
        match self.server_for_host(host_id) {
            Some(server) => Some(run_ssh_command_for_server(server, remote_command)),
            None => None,
        }
    }

    /// The request for the listing of a directory; none where the host is not browsed.
    pub fn load_directory(&self, host_id: &HostId, dir_path: &str) -> (request: Option<HostRequest>)
        ensures
            match request {
                Some(r) => self@.contains_key(host_id@) && asks_for_batch(
                    r,
                    self@[host_id@],
                    list_batch(dir_path@),
                ),
                None => !self@.contains_key(host_id@),
            },
    {
        let mut batch = concat("ls -la ", quote_sftp_path(dir_path).as_str());
        push_text(&mut batch, "\n");
        self.run_batch_for_host(host_id, batch)
    }

    /// The request for the first listing; none where the host is not browsed.
    pub fn load_initial_root(&self, host_id: &HostId) -> (request: Option<HostRequest>)
        ensures
            match request {
                Some(r) => self@.contains_key(host_id@) && asks_for_batch(
                    r,
                    self@[host_id@],
                    initial_batch(),
                ),
                None => !self@.contains_key(host_id@),
            },
    {
        self.run_batch_for_host(host_id, "pwd\nls -la .\n".to_owned())
    }
}

// ---------------------------------------------------------------------------------------------
// Laws
// ---------------------------------------------------------------------------------------------

/// Whether a text has no character that means anything between the double quotes of a shell.
pub open spec fn is_plain(s: Seq<char>) -> bool {
    forall|i: int|
        0 <= i < s.len() ==> #[trigger] s[i] != '$' && s[i] != '`' && s[i] != '\\' && s[i] != '"'
}

/// What a POSIX shell makes of a word that consists of parts in single quotes, which stand for
/// themselves, and plain parts in double quotes.
pub open spec fn shell_reads(s: Seq<char>) -> Option<Seq<char>>
    decreases s.len(),
{
    if s.len() == 0 {
        Some(Seq::empty())
    } else if s[0] != '\'' && s[0] != '"' {
        None
    } else {
        let n = text::position(s.skip(1), s[0]) as int;
        let part = s.skip(1).take(n);
        if n >= s.len() - 1 || (s[0] == '"' && !is_plain(part)) {
            None
        } else {
            match shell_reads(s.skip(n + 2)) {
                Some(rest) => Some(part + rest),
                None => None,
            }
        }
    }
}

/// The shell reads the word made of a secret as that secret, whatever characters it holds.
pub proof fn law_shell_reads_secret_back(secret: Seq<char>)
    ensures
        shell_reads(shell_word(secret)) == Some(secret),
    decreases secret.len(),
{
    let q = '\'';
    let with = seq![q, '"', q, '"', q];
    let n = text::position(secret, q) as int;
    text::lemma_position(secret, q);
    let front = secret.take(n);
    text::lemma_replace_absent(front, q, with);
    let word = shell_word(secret);
    let body = word.skip(1);
    if n == secret.len() {
        assert(front =~= secret);
        assert(body =~= secret + seq![q]);
        assert forall|i: int| 0 <= i < n implies #[trigger] body[i] != q by {
            assert(body[i] == secret[i]);
        }
        text::lemma_position_is(body, q, n as nat);
        assert(word.skip(n + 2) =~= Seq::<char>::empty());
        assert(shell_reads(Seq::<char>::empty()) == Some(Seq::<char>::empty()));
        assert(body.take(n) =~= secret);
        assert(secret + Seq::<char>::empty() =~= secret);
    } else {
        let back = secret.skip(n + 1);
        law_shell_reads_secret_back(back);
        assert(secret =~= front + (seq![q] + back));
        text::lemma_replace_concat(front, seq![q] + back, q, with);
        text::lemma_replace_concat(seq![q], back, q, with);
        text::lemma_replace_one(q, q, with);
        let quote = seq!['"', q, '"'];
        let rest = quote + shell_word(back);
        assert(word =~= seq![q] + front + seq![q] + rest);
        assert(body =~= front + (seq![q] + rest));
        assert forall|i: int| 0 <= i < n implies #[trigger] body[i] != q by {
            assert(body[i] == secret[i]);
        }
        text::lemma_position_is(body, q, n as nat);
        assert(word.skip(n + 2) =~= rest);
        assert(body.take(n) =~= front);
        text::lemma_position_is(rest.skip(1), '"', 1);
        assert(rest.skip(1).take(1) =~= seq![q]);
        assert(is_plain(seq![q]));
        assert(rest.skip(3) =~= shell_word(back));
        assert(shell_reads(rest) == Some(seq![q] + back));
        assert(front + (seq![q] + back) =~= secret);
    }
}

/// `ssh` and `sftp` get the same arguments for a server, but for the flag in front of a port that is
/// not SSH's own: `-p` for the one and `-P` for the other.
pub proof fn law_programs_differ_in_port_flag(
    server: SshServerInfo,
    keepalive: SshKeepaliveOptions,
    i: int,
)
    ensures
        ({
            let sftp = server_args(server, keepalive, "-P"@);
            let ssh = server_args(server, keepalive, "-p"@);
            let flag = 6 + ssh::keepalive_args(keepalive).len() as int;
            let port = text::decimal(server.port as nat);
            &&& sftp.len() == ssh.len()
            &&& server.port == 22 ==> sftp == ssh
            &&& server.port != 22 ==> {
                &&& flag + 1 < sftp.len()
                &&& sftp[flag] == "-P"@ && ssh[flag] == "-p"@
                &&& sftp[flag + 1] == port && ssh[flag + 1] == port
                &&& 0 <= i < sftp.len() && i != flag ==> sftp[i] == ssh[i]
            }
        }),
{
}

/// The destination comes last, whatever else a server asks for.
pub proof fn law_destination_comes_last(
    server: SshServerInfo,
    keepalive: SshKeepaliveOptions,
    port_flag: Seq<char>,
)
    ensures
        server_args(server, keepalive, port_flag).last() == destination(server),
{
}

/// Different nodes have different hosts.
pub proof fn law_nodes_have_their_own_hosts(a: Seq<char>, b: Seq<char>)
    requires
        host_of_node(a) == host_of_node(b),
    ensures
        a == b,
{
    let prefix = "ssh-manager-sftp:"@;
    assert(host_of_node(a).skip(prefix.len() as int) =~= a);
    assert(host_of_node(b).skip(prefix.len() as int) =~= b);
}

/// A server that was taken on is the server of its host; every other host keeps its own.
pub proof fn law_connected_server_is_managed(
    hosts: Map<Seq<char>, SshServerInfo>,
    server: SshServerInfo,
    other: Seq<char>,
)
    requires
        other != server.node_id@,
    ensures
        ({
            let after = hosts.insert(host_of_node(server.node_id@), server);
            &&& after.contains_key(host_of_node(server.node_id@))
            &&& after[host_of_node(server.node_id@)] == server
            &&& after.contains_key(host_of_node(other)) == hosts.contains_key(host_of_node(other))
            &&& hosts.contains_key(host_of_node(other)) ==> after[host_of_node(other)]
                == hosts[host_of_node(other)]
        }),
{
    if host_of_node(other) == host_of_node(server.node_id@) {
        law_nodes_have_their_own_hosts(other, server.node_id@);
    }
}

/// The batch that lists a directory names that directory: reading the word behind `ls -la ` gives the
/// path back and leaves the newline that ends the command.
pub proof fn law_list_batch_names_its_directory(dir_path: Seq<char>)
    ensures
        ({
            let batch = list_batch(dir_path);
            &&& "ls -la "@.is_prefix_of(batch)
            &&& sftp_listing::read_quoted(batch.skip("ls -la "@.len() as int)) == Some(
                (dir_path, "\n"@),
            )
        }),
{
    let batch = list_batch(dir_path);
    sftp_listing::law_quoted_path_reads_back(dir_path, "\n"@);
    assert("ls -la "@ =~= batch.subrange(0, "ls -la "@.len() as int));
    assert(batch.skip("ls -la "@.len() as int) =~= sftp_listing::quoted(dir_path) + "\n"@);
}

/// Whether a server takes a key whose file is known.
pub open spec fn uses_key(server: SshServerInfo) -> bool {
    server.auth_type == AuthType::Key && server.key_path is Some && server.key_path->0@.len() > 0
}

/// The number of arguments that a port other than SSH's own takes.
pub open spec fn port_arg_count(server: SshServerInfo) -> int {
    if server.port == 22 {
        0
    } else {
        2
    }
}

/// The arguments that lead to a server, place by place: secrets may be asked for, a host that is not
/// known is accepted, a connection has 15 seconds to come up, the settings of the options follow, then
/// the flag and the number of a port other than 22, then `-i` and the path of a key, and last the
/// destination. What a server does not need leaves no gap, and nothing else is there.
pub proof fn law_server_args_place_by_place(
    server: SshServerInfo,
    keepalive: SshKeepaliveOptions,
    port_flag: Seq<char>,
)
    ensures
        ({
            let args = server_args(server, keepalive, port_flag);
            let k = ssh::keepalive_args(keepalive).len() as int;
            let p = port_arg_count(server);
            let i: int = if uses_key(server) {
                2
            } else {
                0
            };
            &&& args.len() == 7 + k + p + i
            &&& ssh::sets_at(args, 0, "BatchMode="@, seq!['n', 'o'])
            &&& ssh::sets_at(args, 2, "StrictHostKeyChecking="@, "accept-new"@)
            &&& ssh::sets_at(args, 4, "ConnectTimeout="@, seq!['1', '5'])
            &&& args.subrange(6, 6 + k) == ssh::keepalive_args(keepalive)
            &&& server.port != 22 ==> args[6 + k] == port_flag && args[7 + k] == text::decimal(
                server.port as nat,
            ) && text::read_digits(args[7 + k]) == server.port
            &&& uses_key(server) ==> args[6 + k + p] == seq!['-', 'i'] && args[7 + k + p]
                == server.key_path->0@
            &&& server.username@.len() == 0 ==> args[6 + k + p + i] == server.host@
            &&& server.username@.len() > 0 ==> text::splits(
                args[6 + k + p + i],
                server.username@.push('@'),
                server.host@,
            )
        }),
{
    reveal_strlit("-o");
    reveal_strlit("-i");
    reveal_strlit("@");
    reveal_strlit("BatchMode=");
    reveal_strlit("BatchMode=no");
    reveal_strlit("StrictHostKeyChecking=");
    reveal_strlit("accept-new");
    reveal_strlit("StrictHostKeyChecking=accept-new");
    assert("-o"@ =~= seq!['-', 'o']);
    assert("-i"@ =~= seq!['-', 'i']);
    let no = seq!['n', 'o'];
    let fifteen = seq!['1', '5'];
    text::lemma_splits("BatchMode="@, no);
    text::lemma_splits("StrictHostKeyChecking="@, "accept-new"@);
    text::lemma_splits("ConnectTimeout="@, fifteen);
    assert("BatchMode="@ + no =~= "BatchMode=no"@);
    assert("StrictHostKeyChecking="@ + "accept-new"@ =~= "StrictHostKeyChecking=accept-new"@);
    reveal_with_fuel(text::decimal, 2);
    assert(text::decimal(15) =~= fifteen);
    text::law_decimal_reads_back(server.port as nat);
    text::lemma_splits(server.username@.push('@'), server.host@);
    assert(server.username@ + "@"@ + server.host@ =~= server.username@.push('@') + server.host@);
    let args = server_args(server, keepalive, port_flag);
    let k = ssh::keepalive_args(keepalive).len() as int;
    assert(args.subrange(6, 6 + k) =~= ssh::keepalive_args(keepalive));
}

/// `args` holds `-i` at `at`, in front of its last argument.
pub open spec fn key_flag_at(args: Seq<Seq<char>>, at: int) -> bool {
    0 <= at < args.len() - 1 && args[at] == seq!['-', 'i']
}

/// A key is passed to a program exactly where the server takes one and its file is known, whatever the
/// port, the user and the options: then `-i` is there with the path of that file right behind it, in
/// front of the destination; otherwise there is no `-i` in front of the destination.
pub proof fn law_key_is_passed_where_there_is_one(
    server: SshServerInfo,
    keepalive: SshKeepaliveOptions,
)
    ensures
        forall|flag: Seq<char>|
            flag == "-p"@ || flag == "-P"@ ==> {
                let args = #[trigger] server_args(server, keepalive, flag);
                let n = args.len() as int;
                if server.auth_type == AuthType::Key && server.key_path is Some
                    && server.key_path->0@.len() > 0 {
                    n >= 3 && key_flag_at(args, n - 3) && args[n - 2] == server.key_path->0@
                } else {
                    forall|at: int| !key_flag_at(args, at)
                }
            },
{
    assert forall|flag: Seq<char>| flag == "-p"@ || flag == "-P"@ implies ({
        let args = #[trigger] server_args(server, keepalive, flag);
        let n = args.len() as int;
        if server.auth_type == AuthType::Key && server.key_path is Some
            && server.key_path->0@.len() > 0 {
            n >= 3 && key_flag_at(args, n - 3) && args[n - 2] == server.key_path->0@
        } else {
            forall|at: int| !key_flag_at(args, at)
        }
    }) by {
        lemma_key_flags(server, keepalive, flag);
    }
}

proof fn lemma_key_flags(server: SshServerInfo, keepalive: SshKeepaliveOptions, flag: Seq<char>)
    requires
        flag == "-p"@ || flag == "-P"@,
    ensures
        ({
            let args = server_args(server, keepalive, flag);
            let n = args.len() as int;
            if uses_key(server) {
                n >= 3 && key_flag_at(args, n - 3) && args[n - 2] == server.key_path->0@
            } else {
                forall|at: int| !key_flag_at(args, at)
            }
        }),
{
    law_server_args_place_by_place(server, keepalive, flag);
    ssh::law_options_read_back(keepalive);
    text::law_decimal_reads_back(server.port as nat);
    reveal_strlit("-p");
    reveal_strlit("-P");
    reveal_strlit("BatchMode=");
    reveal_strlit("StrictHostKeyChecking=");
    reveal_strlit("ConnectTimeout=");
    reveal_strlit("ServerAliveInterval=");
    reveal_strlit("ServerAliveCountMax=");
    reveal_strlit("TCPKeepAlive=");
    let args = server_args(server, keepalive, flag);
    if !uses_key(server) {
        let settings = ssh::keepalive_args(keepalive);
        let k = settings.len() as int;
        let key = seq!['-', 'i'];
        assert(key[0] == '-' && key[1] == 'i');
        assert forall|at: int| !key_flag_at(args, at) by {
            if key_flag_at(args, at) {
                if 6 <= at < 6 + k {
                    let a: int = if keepalive.server_alive_interval_secs is Some {
                        2
                    } else {
                        0
                    };
                    let b: int = if keepalive.server_alive_count_max is Some {
                        2
                    } else {
                        0
                    };
                    let j = at - 6;
                    assert(args[at] == args.subrange(6, 6 + k)[j]);
                    assert(settings[j] == key);
                    let o = seq!['-', 'o'];
                    assert(o[1] == 'o');
                    if j < a {
                        assert(j == 0 || j == 1);
                        lemma_starts(settings[1], "ServerAliveInterval="@);
                    } else if j < a + b {
                        assert(j == a || j == a + 1);
                        lemma_starts(settings[a + 1], "ServerAliveCountMax="@);
                    } else {
                        assert(j == a + b || j == a + b + 1);
                        lemma_starts(settings[a + b + 1], "TCPKeepAlive="@);
                    }
                } else if at < 6 {
                    let o = seq!['-', 'o'];
                    assert(o[1] == 'o');
                    lemma_starts(args[1], "BatchMode="@);
                    lemma_starts(args[3], "StrictHostKeyChecking="@);
                    lemma_starts(args[5], "ConnectTimeout="@);
                    assert(at == 0 || at == 1 || at == 2 || at == 3 || at == 4 || at == 5);
                } else if server.port != 22 {
                    assert(at == 6 + k || at == 7 + k);
                    assert(flag[1] == 'p' || flag[1] == 'P');
                    if at == 7 + k {
                        let d = text::decimal(server.port as nat);
                        assert('0' <= d[0] <= '9');
                    }
                }
            }
        }
    }
}

proof fn lemma_starts(s: Seq<char>, front: Seq<char>)
    requires
        front.len() > 0,
    ensures
        s.len() >= front.len() && s.take(front.len() as int) == front ==> s[0] == front[0],
{
    if s.len() >= front.len() && s.take(front.len() as int) == front {
        assert(s.take(front.len() as int)[0] == s[0]);
    }
}

/// The script prints the secret: on Unix the word behind `printf` is one that the shell reads as the
/// secret, and on Windows the secret itself stands behind `echo`. Nothing else is printed.
pub proof fn law_script_prints_the_secret(host: ScriptHost, secret: Seq<char>)
    ensures
        ({
            let script = askpass_content(host, secret);
            let unix = "#!/bin/sh\nprintf '%s\\n' "@;
            let windows = "@echo off\necho "@;
            let n = script.len() as int;
            &&& host == ScriptHost::Unix ==> {
                &&& n > unix.len() && script.take(unix.len() as int) == unix
                &&& shell_reads(script.subrange(unix.len() as int, n - 1)) == Some(secret)
                &&& script[n - 1] == '\n'
            }
            &&& host == ScriptHost::Windows ==> {
                &&& n == windows.len() + secret.len() + 1
                &&& script.take(windows.len() as int) == windows
                &&& script.subrange(windows.len() as int, n - 1) == secret
                &&& script[n - 1] == '\n'
            }
        }),
{
    reveal_strlit("#!/bin/sh\nprintf '%s\\n' ");
    reveal_strlit("#!/bin/sh\n");
    reveal_strlit("printf '%s\\n' ");
    reveal_strlit("@echo off\necho ");
    reveal_strlit("@echo off\n");
    reveal_strlit("echo ");
    reveal_strlit("\n");
    let unix = "#!/bin/sh\nprintf '%s\\n' "@;
    let windows = "@echo off\necho "@;
    assert("#!/bin/sh\n"@ + "printf '%s\\n' "@ =~= unix);
    assert("@echo off\n"@ + "echo "@ =~= windows);
    let script = askpass_content(host, secret);
    let n = script.len() as int;
    law_shell_reads_secret_back(secret);
    match host {
        ScriptHost::Unix => {
            assert(script.take(unix.len() as int) =~= unix);
            assert(script.subrange(unix.len() as int, n - 1) =~= shell_word(secret));
        },
        ScriptHost::Windows => {
            assert(script.take(windows.len() as int) =~= windows);
            assert(script.subrange(windows.len() as int, n - 1) =~= secret);
        },
    }
}

/// The quoted secret goes character by character: a single quote becomes five characters, and any other
/// stays as it is, between one quote at each end.
pub proof fn law_shell_word_goes_char_by_char(a: Seq<char>, x: char)
    ensures
        shell_word(Seq::<char>::empty()) == seq!['\'', '\''],
        x != '\'' ==> shell_word(a.push(x)) == shell_word(a).drop_last().push(x).push('\''),
        x == '\'' ==> shell_word(a.push(x)) == shell_word(a).push('"').push('\'').push('"').push(
            '\'',
        ).push('\''),
{
    let q = '\'';
    let with = seq![q, '"', q, '"', q];
    let none = Seq::<char>::empty();
    text::law_replace_goes_char_by_char(a, x, none, q, with);
    assert(a.push(x) + none =~= a.push(x));
    assert(text::replace(none, q, with) =~= none);
    assert(shell_word(none) =~= seq![q, q]);
    if x == q {
        assert(shell_word(a.push(x)) =~= shell_word(a).push('"').push(q).push('"').push(q).push(q));
    } else {
        assert(shell_word(a.push(x)) =~= shell_word(a).drop_last().push(x).push(q));
    }
}

/// Where a script is at hand, SSH is made to run it, whether or not there is a terminal; where none is,
/// the environment stays as it is.
pub proof fn law_script_is_found_through_the_environment()
    ensures
        askpass_env(false).len() == 0,
        askpass_env(true).len() == 3,
        askpass_env(true)[0].0 == "SSH_ASKPASS"@ && askpass_env(true)[0].1 is None,
        askpass_env(true)[1].0 == "SSH_ASKPASS_REQUIRE"@,
        askpass_env(true)[1].1 == Some("force"@),
        askpass_env(true)[2].0 == "DISPLAY"@,
        askpass_env(true)[2].1 == Some("openwarp"@),
{
}

/// `sftp` is started with the arguments for its server, each in its place, then told to take its commands
/// from the standard input, and given the whole batch there.
pub proof fn law_sftp_gets_the_whole_batch(
    server: SshServerInfo,
    batch: Seq<char>,
    keepalive: SshKeepaliveOptions,
    askpass: bool,
    i: int,
)
    ensures
        ({
            let this = sftp_run(server, batch, keepalive, askpass);
            let args = server_args(server, keepalive, "-P"@);
            let n = args.len() as int;
            &&& this.program == "sftp"@
            &&& this.args.len() == n + 2
            &&& 0 <= i < n ==> this.args[i] == Some(args[i])
            &&& this.args[n] == Some("-b"@) && this.args[n + 1] == Some("-"@)
            &&& this.stdin == Some(batch)
            &&& this.env == askpass_env(askpass)
            &&& !this.kill_on_drop
        }),
{
}

/// `ssh` is started with the arguments for its server, each in its place, and the whole command behind
/// them; it is given nothing on the standard input.
pub proof fn law_ssh_gets_the_whole_command(
    server: SshServerInfo,
    remote_command: Seq<char>,
    keepalive: SshKeepaliveOptions,
    askpass: bool,
    i: int,
)
    ensures
        ({
            let this = ssh_run(server, remote_command, keepalive, askpass);
            let args = server_args(server, keepalive, "-p"@);
            let n = args.len() as int;
            &&& this.program == "ssh"@
            &&& this.args.len() == n + 1
            &&& 0 <= i < n ==> this.args[i] == Some(args[i])
            &&& this.args[n] == Some(remote_command)
            &&& this.stdin is None
            &&& this.env == askpass_env(askpass)
            &&& !this.kill_on_drop
        }),
{
}

/// A request carries the server, the whole work and a minute to do it in, and fits no other.
pub proof fn law_request_carries_its_work(
    request: HostRequest,
    server: SshServerInfo,
    work: Seq<char>,
)
    ensures
        asks_for_batch(request, server, work) <==> request.server == server && request.timeout_secs
            == 60 && (request.work matches RemoteWork::SftpBatch(text) && text@ == work),
        asks_for_command(request, server, work) <==> request.server == server
            && request.timeout_secs == 60 && (request.work matches RemoteWork::SshCommand(text)
            && text@ == work),
{
}

/// The first listing asks where it is, and then for all that is there.
pub proof fn law_first_batch_has_two_commands()
    ensures
        text::lines(initial_batch()) == seq!["pwd"@, "ls -la ."@],
{
    reveal_strlit("pwd\nls -la .\n");
    reveal_strlit("pwd");
    reveal_strlit("ls -la .");
    let a = "pwd"@;
    let b = "ls -la ."@;
    let none = Seq::<char>::empty();
    text::law_lines_go_one_by_one(a, b.push('\n'));
    text::law_lines_go_one_by_one(b, none);
    text::law_last_line_stands_as_it_is(none);
    assert(b.push('\n') + none =~= b.push('\n'));
    assert(a.push('\n') + b.push('\n') =~= initial_batch());
    let all = text::lines(initial_batch());
    assert(all[1] == all.skip(1)[0]);
    assert(all =~= seq![a, b]);
}

/// The host of a node is named by the whole name of the node behind a prefix of its own.
pub proof fn law_host_gives_its_node_back(node_id: Seq<char>)
    ensures
        text::splits(host_of_node(node_id), "ssh-manager-sftp:"@, node_id),
{
    text::lemma_splits("ssh-manager-sftp:"@, node_id);
}

/// Work that was not done is told by the step that failed, whatever the system said of it; work that took
/// too long is told with the time that was too short.
pub proof fn law_failed_work_names_its_step(work: RemoteWork, failure: RunFailure)
    ensures
        ({
            let shown = failure_text(work, failure);
            match (work, failure) {
                (RemoteWork::SftpBatch(_), RunFailure::TimedOut(e)) => text::splits(
                    shown,
                    "sftp batch timed out after "@,
                    e@,
                ),
                (RemoteWork::SshCommand(_), RunFailure::TimedOut(e)) => text::splits(
                    shown,
                    "ssh command timed out after "@,
                    e@,
                ),
                (RemoteWork::SftpBatch(_), RunFailure::Spawn(_)) => shown
                    == "failed to spawn sftp"@,
                (RemoteWork::SftpBatch(_), RunFailure::WriteInput(_)) => shown
                    == "failed to write sftp batch"@,
                (RemoteWork::SftpBatch(_), RunFailure::Wait(_)) => shown
                    == "failed to collect sftp output"@,
                (RemoteWork::SshCommand(_), _) => shown == "failed to collect ssh output"@,
            }
        }),
{
    if let RunFailure::TimedOut(e) = failure {
        text::lemma_splits("sftp batch timed out after "@, e@);
        text::lemma_splits("ssh command timed out after "@, e@);
    }
}

} // verus!
