use warp_ssh::settings::SshSettings;
use warp_ssh::ssh::{ssh_args, ssh_args_with_options};

#[test]
fn defaults() {
    let settings = SshSettings::default();
    assert!(settings.enable_legacy_ssh_wrapper);
    assert_eq!(settings.keepalive_interval_secs, 30);
    assert_eq!(settings.keepalive_max_failures, 3);
    assert!(settings.tcp_keepalive_enabled);
    assert!(settings.auto_reconnect_enabled);
    assert_eq!(settings.auto_reconnect_max_attempts, 10);
    assert_eq!(settings.sftp_stale_threshold_secs, 60);
}

#[test]
fn keepalive_follows_the_settings() {
    let mut settings = SshSettings::default();
    settings.keepalive_interval_secs = 45;
    settings.keepalive_max_failures = 0;
    settings.tcp_keepalive_enabled = false;
    let options = settings.keepalive_options(true);
    assert_eq!(options.server_alive_interval_secs, Some(45));
    assert_eq!(options.server_alive_count_max, Some(0));
    assert_eq!(options.tcp_keepalive_enabled, Some(false));
    let args = ssh_args_with_options("s", &options);
    assert_eq!(
        args[5..11],
        [
            "-o",
            "ServerAliveInterval=45",
            "-o",
            "ServerAliveCountMax=0",
            "-o",
            "TCPKeepAlive=no"
        ]
    );
}

#[test]
fn without_the_feature_nothing_changes() {
    let settings = SshSettings::default();
    let options = settings.keepalive_options(false);
    assert_eq!(options.server_alive_interval_secs, None);
    assert_eq!(options.server_alive_count_max, None);
    assert_eq!(options.tcp_keepalive_enabled, None);
    assert_eq!(ssh_args_with_options("s", &options), ssh_args("s"));
    let config = settings.remote_server_manager_config(false);
    assert!(!config.auto_reconnect_enabled);
    assert_eq!(config.max_attempts, 1);
    assert_eq!(config.initial_backoff_secs, 1);
    assert_eq!(config.max_backoff_secs, 30);
}

#[test]
fn manager_always_has_an_attempt() {
    let mut settings = SshSettings::default();
    for (setting, attempts) in [(0, 1), (1, 1), (2, 2), (10, 10), (u32::MAX, u32::MAX)] {
        settings.auto_reconnect_max_attempts = setting;
        let config = settings.remote_server_manager_config(true);
        assert!(config.auto_reconnect_enabled);
        assert_eq!(config.max_attempts, attempts);
        assert_eq!(config.initial_backoff_secs, 1);
        assert_eq!(config.max_backoff_secs, 30);
    }
    settings.auto_reconnect_enabled = false;
    assert!(!settings.remote_server_manager_config(true).auto_reconnect_enabled);
}
