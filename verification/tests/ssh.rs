use warp_ssh::process::{timed_out, Arg, CommandOutput, Invocation, RunFailure};
use warp_ssh::ssh::{
    copy_result, exit_line, failure_message, no_exit_line, run_result, run_sftp_batch, run_ssh_command,
    run_ssh_command_with_options, run_ssh_script, run_ssh_script_with_options, scp_download,
    scp_or_sftp_args, scp_refusal_message, scp_result, scp_upload, scp_upload_with_options,
    ssh_args, ssh_args_with_options, stop_control_master, stop_control_master_line, LogLevel,
    SshKeepaliveOptions, SshOperation,
};

fn full() -> SshKeepaliveOptions {
    SshKeepaliveOptions {
        server_alive_interval_secs: Some(30),
        server_alive_count_max: Some(3),
        tcp_keepalive_enabled: Some(true),
    }
}

/// The arguments, with `<path>` for the path that the caller puts in.
fn args(invocation: &Invocation) -> Vec<&str> {
    invocation
        .args
        .iter()
        .map(|arg| match arg {
            Arg::Text(text) => text.as_str(),
            Arg::LocalPath => "<path>",
        })
        .collect()
}

fn output(success: bool, code: Option<i32>, stderr: &[u8]) -> CommandOutput {
    CommandOutput { success, code, stdout: Vec::new(), stderr: stderr.to_vec() }
}

const PLAIN: [&str; 8] = [
    "-q",
    "-o",
    "PasswordAuthentication=no",
    "-o",
    "ForwardX11=no",
    "-o",
    "ControlPath=/tmp/s",
    "placeholder@placeholder",
];

const KEPT_ALIVE: [&str; 14] = [
    "-q",
    "-o",
    "PasswordAuthentication=no",
    "-o",
    "ForwardX11=no",
    "-o",
    "ServerAliveInterval=30",
    "-o",
    "ServerAliveCountMax=3",
    "-o",
    "TCPKeepAlive=yes",
    "-o",
    "ControlPath=/tmp/s",
    "placeholder@placeholder",
];

const COPY: [&str; 10] = [
    "-o",
    "ControlPath=/tmp/s",
    "-o",
    "ControlMaster=no",
    "-o",
    "PasswordAuthentication=no",
    "-o",
    "ForwardX11=no",
    "-o",
    "ConnectTimeout=15",
];

#[test]
fn ssh_arguments() {
    assert_eq!(ssh_args("/tmp/s"), PLAIN);
    assert_eq!(ssh_args_with_options("/tmp/s", &full()), KEPT_ALIVE);
    assert_eq!(ssh_args_with_options("/tmp/s", &SshKeepaliveOptions::default()), PLAIN);
}

#[test]
fn each_option_adds_its_setting() {
    let none = SshKeepaliveOptions::default();
    assert_eq!(scp_or_sftp_args("/tmp/s", &none), COPY);
    let off = SshKeepaliveOptions { tcp_keepalive_enabled: Some(false), ..none };
    let mut expected = COPY.to_vec();
    expected.extend(["-o", "TCPKeepAlive=no"]);
    assert_eq!(scp_or_sftp_args("/tmp/s", &off), expected);
    let max = SshKeepaliveOptions { server_alive_count_max: Some(u32::MAX), ..none };
    let mut expected = COPY.to_vec();
    expected.extend(["-o", "ServerAliveCountMax=4294967295"]);
    assert_eq!(scp_or_sftp_args("/tmp/s", &max), expected);
    let mut expected = COPY.to_vec();
    expected.extend([
        "-o",
        "ServerAliveInterval=30",
        "-o",
        "ServerAliveCountMax=3",
        "-o",
        "TCPKeepAlive=yes",
    ]);
    assert_eq!(scp_or_sftp_args("/tmp/s", &full()), expected);
}

#[test]
fn programs_to_start() {
    let stop = stop_control_master("/tmp/s");
    assert_eq!(stop.program, "ssh");
    let mut expected = vec!["-O", "exit"];
    expected.extend(PLAIN);
    assert_eq!(args(&stop), expected);
    assert!(stop.kill_on_drop && stop.env.is_empty() && stop.stdin.is_none());

    let command = run_ssh_command("/tmp/s", "uname -a");
    let mut expected = PLAIN.to_vec();
    expected.push("uname -a");
    assert_eq!(args(&command), expected);
    assert_eq!(command.program, "ssh");

    let command = run_ssh_command_with_options("/tmp/s", "uname -a", &full());
    let mut expected = KEPT_ALIVE.to_vec();
    expected.push("uname -a");
    assert_eq!(args(&command), expected);

    let script = run_ssh_script("/tmp/s", "echo 'x'\n".to_string());
    let mut expected = PLAIN.to_vec();
    expected.push("bash -s");
    assert_eq!(args(&script), expected);
    assert_eq!(script.stdin.as_deref(), Some("echo 'x'\n"));
    let script = run_ssh_script_with_options("/tmp/s", String::new(), &full());
    assert_eq!(args(&script).last(), Some(&"bash -s"));
    assert_eq!(script.args.len(), 15);
}

#[test]
fn copies_and_batches() {
    let none = SshKeepaliveOptions::default();
    let up = scp_upload("/tmp/s", "/srv/a b");
    let mut expected = COPY.to_vec();
    expected.extend(["<path>", "placeholder@placeholder:/srv/a b"]);
    assert_eq!(args(&up), expected);
    assert_eq!(up.program, "scp");
    assert_eq!(args(&scp_upload_with_options("/tmp/s", "/srv/a b", &none)), expected);

    let down = scp_download("/tmp/s", "/srv/a b", &none);
    let mut expected = COPY.to_vec();
    expected.extend(["placeholder@placeholder:/srv/a b", "<path>"]);
    assert_eq!(args(&down), expected);
    assert_eq!(down.program, "scp");

    let batch = run_sftp_batch("/tmp/s", "pwd\n".to_string(), &none);
    let mut expected = COPY.to_vec();
    expected.extend(["-b", "-", "placeholder@placeholder"]);
    assert_eq!(args(&batch), expected);
    assert_eq!(batch.program, "sftp");
    assert_eq!(batch.stdin.as_deref(), Some("pwd\n"));
}

#[test]
fn failures_of_the_transport() {
    let e = || "no such file".to_string();
    let spawn = RunFailure::Spawn(e());
    let write = RunFailure::WriteInput(e());
    let wait = RunFailure::Wait(e());
    let late = timed_out(10, 0);
    let cases = [
        (SshOperation::Command, &spawn, "SSH command failed to execute: no such file"),
        (SshOperation::Command, &write, "SSH command failed to execute: no such file"),
        (SshOperation::Command, &wait, "SSH command failed to execute: no such file"),
        (SshOperation::Command, &late, "SSH command timed out after 10s"),
        (SshOperation::Script, &spawn, "Failed to spawn SSH for script: no such file"),
        (SshOperation::Script, &write, "Failed to write script to stdin: no such file"),
        (SshOperation::Script, &wait, "Script failed: no such file"),
        (SshOperation::Script, &late, "Script timed out after 10s"),
        (SshOperation::ScpUpload, &spawn, "SCP upload failed to execute: no such file"),
        (SshOperation::ScpUpload, &write, "SCP upload failed to execute: no such file"),
        (SshOperation::ScpUpload, &wait, "SCP upload failed to execute: no such file"),
        (SshOperation::ScpUpload, &late, "SCP upload timed out after 10s"),
        (SshOperation::ScpDownload, &spawn, "SCP download failed to execute: no such file"),
        (SshOperation::ScpDownload, &write, "SCP download failed to execute: no such file"),
        (SshOperation::ScpDownload, &wait, "SCP download failed to execute: no such file"),
        (SshOperation::ScpDownload, &late, "SCP download timed out after 10s"),
        (SshOperation::SftpBatch, &spawn, "Failed to spawn SFTP batch command: no such file"),
        (SshOperation::SftpBatch, &write, "Failed to write SFTP batch to stdin: no such file"),
        (SshOperation::SftpBatch, &wait, "SFTP batch failed: no such file"),
        (SshOperation::SftpBatch, &late, "SFTP batch timed out after 10s"),
    ];
    for (operation, failure, expected) in cases {
        assert_eq!(failure_message(operation, failure), expected);
    }
}

#[test]
fn times_are_shown_as_std_shows_them() {
    for (secs, nanos) in [(60, 0), (0, 0), (1, 500_000_000), (0, 1_500_000), (0, 7), (90, 1)] {
        let RunFailure::TimedOut(text) = timed_out(secs, nanos) else {
            panic!("expected a timeout");
        };
        assert_eq!(text, format!("{:?}", std::time::Duration::new(secs, nanos)));
    }
}

#[test]
fn results_of_copies() {
    assert_eq!(scp_result(true, &output(true, Some(0), b"warning")), Ok(()));
    assert_eq!(
        scp_result(true, &output(false, Some(1), b"denied")),
        Err("SCP upload failed: denied".to_string())
    );
    assert_eq!(
        scp_result(false, &output(false, None, b"a\xffb")),
        Err("SCP download failed: a\u{fffd}b".to_string())
    );
    assert_eq!(scp_refusal_message(false, "x"), "SCP download failed: x");
}

#[test]
fn lines_on_the_end_of_a_master() {
    let line = stop_control_master_line("/tmp/s", &Ok(output(true, Some(0), b"")));
    assert_eq!(line.level, LogLevel::Info);
    assert_eq!(line.message, "stop_control_master: `ssh -O exit` succeeded for /tmp/s");

    let line = stop_control_master_line("/tmp/s", &Ok(output(false, Some(255), b"gone\xf0")));
    assert_eq!(line.level, LogLevel::Info);
    assert_eq!(
        line.message,
        "stop_control_master: `ssh -O exit` for /tmp/s exited with Some(255): gone\u{fffd}"
    );

    let line = exit_line("/tmp/s", false, None, "killed");
    assert_eq!(
        line.message,
        "stop_control_master: `ssh -O exit` for /tmp/s exited with None: killed"
    );
    let line = exit_line("/tmp/s", false, Some(-1), "");
    assert_eq!(
        line.message,
        format!("stop_control_master: `ssh -O exit` for /tmp/s exited with {:?}: ", Some(-1))
    );

    for failure in [
        RunFailure::Spawn("e".to_string()),
        RunFailure::WriteInput("e".to_string()),
        RunFailure::Wait("e".to_string()),
    ] {
        let line = stop_control_master_line("/tmp/s", &Err(failure));
        assert_eq!(line.level, LogLevel::Info);
        assert_eq!(
            line.message,
            "stop_control_master: failed to spawn `ssh -O exit` for /tmp/s: e"
        );
    }

    let line = no_exit_line("/tmp/s", &timed_out(5, 0));
    assert_eq!(line.level, LogLevel::Warn);
    assert_eq!(
        line.message,
        "stop_control_master: `ssh -O exit` for /tmp/s timed out after 5s"
    );
}

#[test]
fn only_a_failure_of_the_transport_is_an_error() {
    for operation in [SshOperation::Command, SshOperation::Script, SshOperation::SftpBatch] {
        for (success, code) in [(true, Some(0)), (false, Some(127)), (false, None)] {
            let ended = run_result(operation, Ok(output(success, code, b"e"))).unwrap();
            assert_eq!((ended.success, ended.code), (success, code));
            assert_eq!(ended.stderr, b"e");
        }
    }
    assert_eq!(
        run_result(SshOperation::Script, Err(timed_out(5, 0))).unwrap_err(),
        "Script timed out after 5s"
    );
    assert_eq!(
        run_result(SshOperation::Command, Err(RunFailure::Spawn("e".to_string()))).unwrap_err(),
        "SSH command failed to execute: e"
    );
}

#[test]
fn outcomes_of_copies() {
    assert_eq!(copy_result(true, Ok(output(true, Some(0), b"x"))), Ok(()));
    assert_eq!(
        copy_result(true, Ok(output(false, Some(1), b"x"))),
        Err("SCP upload failed: x".to_string())
    );
    assert_eq!(
        copy_result(false, Ok(output(false, Some(1), b"x"))),
        Err("SCP download failed: x".to_string())
    );
    assert_eq!(
        copy_result(true, Err(timed_out(5, 0))),
        Err("SCP upload timed out after 5s".to_string())
    );
    assert_eq!(
        copy_result(false, Err(RunFailure::Wait("e".to_string()))),
        Err("SCP download failed to execute: e".to_string())
    );
}
