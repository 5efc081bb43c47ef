use warp_ssh::ids::HostId;
use warp_ssh::process::{timed_out, Arg, CommandOutput, Invocation, RunFailure};
use warp_ssh::sftp_browser_model::{
    askpass_script, create_askpass_script, failure_message, invocation_for, run_sftp_batch,
    run_sftp_batch_for_server, run_ssh_command, run_ssh_command_for_server, secret_kind, secret_of, sftp_args, ssh_args, AuthType, HostRequest, RemoteWork, ScriptHost, SecretKind,
    SftpBrowserModel, SshServerInfo, work_result,
};
use warp_ssh::ssh::SshKeepaliveOptions;

fn server(node_id: &str) -> SshServerInfo {
    SshServerInfo {
        node_id: node_id.to_string(),
        host: "example.org".to_string(),
        port: 22,
        username: "alice".to_string(),
        auth_type: AuthType::Password,
        key_path: None,
    }
}

const COMMON: [&str; 6] = [
    "-o",
    "BatchMode=no",
    "-o",
    "StrictHostKeyChecking=accept-new",
    "-o",
    "ConnectTimeout=15",
];

fn with(more: &[&str]) -> Vec<String> {
    COMMON.iter().chain(more).map(|arg| arg.to_string()).collect()
}

fn texts(invocation: &Invocation) -> Vec<String> {
    invocation
        .args
        .iter()
        .map(|arg| match arg {
            Arg::Text(text) => text.clone(),
            Arg::LocalPath => panic!("unexpected path"),
        })
        .collect()
}

fn batch(request: HostRequest) -> String {
    match request.work {
        RemoteWork::SftpBatch(batch) => batch,
        RemoteWork::SshCommand(_) => panic!("expected a batch"),
    }
}

#[test]
fn arguments_for_a_plain_server() {
    let none = SshKeepaliveOptions::default();
    let expected = with(&["alice@example.org"]);
    assert_eq!(sftp_args(&server("n"), &none), expected);
    assert_eq!(ssh_args(&server("n"), &none), expected);
    let mut nameless = server("n");
    nameless.username.clear();
    assert_eq!(ssh_args(&nameless, &none), with(&["example.org"]));
}

#[test]
fn arguments_for_a_port_and_a_key() {
    let options = SshKeepaliveOptions {
        server_alive_interval_secs: Some(5),
        server_alive_count_max: None,
        tcp_keepalive_enabled: Some(false),
    };
    let mut special = server("n");
    special.port = 2222;
    special.auth_type = AuthType::Key;
    special.key_path = Some("/home/alice/.ssh/id".to_string());
    let expected = |flag| {
        with(&[
            "-o",
            "ServerAliveInterval=5",
            "-o",
            "TCPKeepAlive=no",
            flag,
            "2222",
            "-i",
            "/home/alice/.ssh/id",
            "alice@example.org",
        ])
    };
    assert_eq!(sftp_args(&special, &options), expected("-P"));
    assert_eq!(ssh_args(&special, &options), expected("-p"));
}

#[test]
fn keys_that_are_not_used() {
    let none = SshKeepaliveOptions::default();
    let mut other = server("n");
    other.key_path = Some("/key".to_string());
    assert_eq!(sftp_args(&other, &none), with(&["alice@example.org"]));
    other.auth_type = AuthType::Key;
    other.key_path = Some(String::new());
    assert_eq!(sftp_args(&other, &none), with(&["alice@example.org"]));
    other.key_path = None;
    assert_eq!(sftp_args(&other, &none), with(&["alice@example.org"]));
}

#[test]
fn kinds_of_secrets() {
    assert_eq!(secret_kind(AuthType::Password), SecretKind::Password);
    assert_eq!(secret_kind(AuthType::Key), SecretKind::Passphrase);
}

#[test]
fn scripts_that_print_a_secret() {
    let script = create_askpass_script(ScriptHost::Unix, "it's");
    assert_eq!(script.suffix, ".sh");
    assert_eq!(script.mode, Some(0o700));
    assert_eq!(script.content, "#!/bin/sh\nprintf '%s\\n' 'it'\"'\"'s'\n");
    let script = create_askpass_script(ScriptHost::Windows, "it's");
    assert_eq!(script.suffix, ".cmd");
    assert_eq!(script.mode, None);
    assert_eq!(script.content, "@echo off\necho it's\n");
}

#[test]
fn an_empty_secret_needs_no_script() {
    assert!(askpass_script(ScriptHost::Unix, &None).is_none());
    assert!(askpass_script(ScriptHost::Unix, &Some(String::new())).is_none());
    let script = askpass_script(ScriptHost::Unix, &Some("s".to_string())).unwrap();
    assert_eq!(script.content, "#!/bin/sh\nprintf '%s\\n' 's'\n");
}

#[test]
fn programs_for_a_server() {
    let none = SshKeepaliveOptions::default();
    let run = run_sftp_batch(&server("n"), "pwd\n".to_string(), &none, false);
    assert_eq!(run.program, "sftp");
    assert_eq!(texts(&run), with(&["alice@example.org", "-b", "-"]));
    assert_eq!(run.stdin.as_deref(), Some("pwd\n"));
    assert!(run.env.is_empty() && !run.kill_on_drop);

    let run = run_ssh_command(&server("n"), "rm -r x", &none, true);
    assert_eq!(run.program, "ssh");
    assert_eq!(texts(&run), with(&["alice@example.org", "rm -r x"]));
    assert!(run.stdin.is_none() && !run.kill_on_drop);
    assert_eq!(run.env.len(), 3);
    assert_eq!(run.env[0].0, "SSH_ASKPASS");
    assert!(matches!(run.env[0].1, Arg::LocalPath));
    assert_eq!(run.env[1].0, "SSH_ASKPASS_REQUIRE");
    assert!(matches!(&run.env[1].1, Arg::Text(text) if text == "force"));
    assert_eq!(run.env[2].0, "DISPLAY");
    assert!(matches!(&run.env[2].1, Arg::Text(text) if text == "openwarp"));
}

#[test]
fn failures_of_work() {
    let sftp = RemoteWork::SftpBatch(String::new());
    let ssh = RemoteWork::SshCommand(String::new());
    let spawn = RunFailure::Spawn("e".to_string());
    let write = RunFailure::WriteInput("e".to_string());
    let wait = RunFailure::Wait("e".to_string());
    assert_eq!(failure_message(&sftp, &spawn), "failed to spawn sftp");
    assert_eq!(failure_message(&sftp, &write), "failed to write sftp batch");
    assert_eq!(failure_message(&sftp, &wait), "failed to collect sftp output");
    assert_eq!(failure_message(&sftp, &timed_out(60, 0)), "sftp batch timed out after 60s");
    for failure in [&spawn, &write, &wait] {
        assert_eq!(failure_message(&ssh, failure), "failed to collect ssh output");
    }
    assert_eq!(failure_message(&ssh, &timed_out(60, 0)), "ssh command timed out after 60s");
}

#[test]
fn a_connected_server_is_managed() {
    let mut model = SftpBrowserModel::new();
    let (host_id, request) = model.connect(server("n1"));
    assert_eq!(host_id.as_str(), "ssh-manager-sftp:n1");
    assert_eq!(SftpBrowserModel::host_id_for_node("n1").as_str(), host_id.as_str());
    assert_eq!(request.server.node_id, "n1");
    assert_eq!(request.timeout_secs, 60);
    assert_eq!(batch(request), "pwd\nls -la .\n");
    assert!(model.is_managed_host(&host_id));
    assert_eq!(model.server_for_host(&host_id).unwrap().host, "example.org");

    let mut moved = server("n1");
    moved.host = "example.net".to_string();
    let _ = model.connect(moved);
    let _ = model.connect(server("n2"));
    assert_eq!(model.server_for_host(&host_id).unwrap().host, "example.net");
    let second = SftpBrowserModel::host_id_for_node("n2");
    assert_eq!(model.server_for_host(&second).unwrap().host, "example.org");
}

#[test]
fn requests_for_a_host() {
    let mut model = SftpBrowserModel::new();
    let (host_id, _) = model.connect(server("n1"));
    let request = model.run_batch_for_host(&host_id, "get x\n".to_string()).unwrap();
    assert_eq!(request.server.node_id, "n1");
    assert_eq!(request.timeout_secs, 60);
    assert_eq!(batch(request), "get x\n");
    let request = model.run_ssh_command_for_host(&host_id, "date".to_string()).unwrap();
    assert_eq!(request.timeout_secs, 60);
    assert!(matches!(&request.work, RemoteWork::SshCommand(command) if command == "date"));
    let request = model.load_directory(&host_id, "/a \"b\"").unwrap();
    assert_eq!(batch(request), "ls -la \"/a \\\"b\\\"\"\n");
    assert_eq!(batch(model.load_initial_root(&host_id).unwrap()), "pwd\nls -la .\n");
}

#[test]
fn strangers_get_no_requests() {
    let mut model = SftpBrowserModel::new();
    let _ = model.connect(server("n1"));
    let stranger = HostId::new("n1".to_string());
    assert!(!model.is_managed_host(&stranger));
    assert!(model.server_for_host(&stranger).is_none());
    assert!(model.run_batch_for_host(&stranger, String::new()).is_none());
    assert!(model.run_ssh_command_for_host(&stranger, String::new()).is_none());
    assert!(model.load_directory(&stranger, "/").is_none());
    assert!(model.load_initial_root(&stranger).is_none());
}

#[test]
fn requests_for_a_server() {
    let request = run_sftp_batch_for_server(server("n1"), "put x\n".to_string());
    assert_eq!(request.server.node_id, "n1");
    assert_eq!(request.timeout_secs, 60);
    assert_eq!(batch(request), "put x\n");
    let request = run_ssh_command_for_server(server("n2"), "date".to_string());
    assert_eq!(request.server.node_id, "n2");
    assert_eq!(request.timeout_secs, 60);
    assert!(matches!(&request.work, RemoteWork::SshCommand(command) if command == "date"));
}

#[test]
fn answers_of_the_secret_store() {
    assert_eq!(secret_of(Ok(Some("s".to_string()))).as_deref(), Some("s"));
    assert_eq!(secret_of(Ok(Some(String::new()))).as_deref(), Some(""));
    assert_eq!(secret_of(Ok(None)), None);
    assert_eq!(secret_of(Err("locked".to_string())), None);
}

#[test]
fn outcomes_of_work() {
    let work = RemoteWork::SftpBatch(String::new());
    let refused = CommandOutput { success: false, code: Some(1), stdout: vec![1], stderr: vec![2] };
    let ended = work_result(&work, Ok(refused)).unwrap();
    assert_eq!((ended.success, ended.code), (false, Some(1)));
    assert_eq!((ended.stdout, ended.stderr), (vec![1], vec![2]));
    for (failure, message) in [
        (RunFailure::Spawn("e".to_string()), "failed to spawn sftp"),
        (RunFailure::WriteInput("e".to_string()), "failed to write sftp batch"),
        (RunFailure::Wait("e".to_string()), "failed to collect sftp output"),
    ] {
        let failure = work_result(&work, Err(failure)).unwrap_err();
        assert_eq!(failure.message, message);
        assert_eq!(failure.cause.as_deref(), Some("e"));
    }
    let failure = work_result(&work, Err(timed_out(60, 0))).unwrap_err();
    assert_eq!(failure.message, "sftp batch timed out after 60s");
    assert_eq!(failure.cause, None);
}

#[test]
fn programs_for_requests() {
    let none = SshKeepaliveOptions::default();
    let request = run_sftp_batch_for_server(server("n"), "pwd\n".to_string());
    let run = invocation_for(&request, &none, false);
    assert_eq!(run.program, "sftp");
    assert_eq!(texts(&run), with(&["alice@example.org", "-b", "-"]));
    assert_eq!(run.stdin.as_deref(), Some("pwd\n"));
    assert!(run.env.is_empty() && !run.kill_on_drop);
    let request = run_ssh_command_for_server(server("n"), "date".to_string());
    let run = invocation_for(&request, &none, true);
    assert_eq!(run.program, "ssh");
    assert_eq!(texts(&run), with(&["alice@example.org", "date"]));
    assert!(run.stdin.is_none() && !run.kill_on_drop);
    assert_eq!(run.env.len(), 3);
}
