//! The user's settings for SSH and SFTP.

use vstd::prelude::*;
use crate::ssh;
use crate::ssh::SshKeepaliveOptions;
use crate::text;

verus! {

/// The user's settings for SSH and SFTP.
#[derive(Clone, Copy, Debug)]
pub struct SshSettings {
    /// Whether the legacy SSH wrapper is enabled for SSH sessions.
    pub enable_legacy_ssh_wrapper: bool,
    /// How often SSH/SFTP keepalive packets are sent, in seconds.
    pub keepalive_interval_secs: u64,
    /// How many keepalive failures are tolerated before reconnecting.
    pub keepalive_max_failures: u32,
    /// Whether TCP keepalive is enabled for SSH/SFTP connections.
    pub tcp_keepalive_enabled: bool,
    /// Whether SSH/SFTP connections should reconnect automatically after disconnects.
    pub auto_reconnect_enabled: bool,
    /// Maximum number of SSH/SFTP reconnect attempts.
    pub auto_reconnect_max_attempts: u32,
    /// How long SFTP tree data can stay idle before it is considered stale, in seconds.
    pub sftp_stale_threshold_secs: u64,
}

/// How the manager of the remote servers reconnects. Between two attempts it waits for a while that
/// grows from the first number of seconds to the second.
#[derive(Clone, Copy, Debug)]
pub struct RemoteServerManagerConfig {
    pub auto_reconnect_enabled: bool,
    pub max_attempts: u32,
    pub initial_backoff_secs: u64,
    pub max_backoff_secs: u64,
}

/// The settings of a user who has changed none.
pub open spec fn default_settings() -> SshSettings {
    SshSettings {
        enable_legacy_ssh_wrapper: true,
        keepalive_interval_secs: 30,
        keepalive_max_failures: 3,
        tcp_keepalive_enabled: true,
        auto_reconnect_enabled: true,
        auto_reconnect_max_attempts: 10,
        sftp_stale_threshold_secs: 60,
    }
}

/// The keepalive options that settings ask for. `keepalive_v2` is the feature flag of that name.
pub open spec fn keepalive_of(settings: SshSettings, keepalive_v2: bool) -> SshKeepaliveOptions {
    if keepalive_v2 {
        SshKeepaliveOptions {
            server_alive_interval_secs: Some(settings.keepalive_interval_secs),
            server_alive_count_max: Some(settings.keepalive_max_failures),
            tcp_keepalive_enabled: Some(settings.tcp_keepalive_enabled),
        }
    } else {
        ssh::no_keepalive()
    }
}

/// How the manager is to reconnect. `keepalive_v2` is the feature flag of that name.
pub open spec fn manager_config_of(
    settings: SshSettings,
    keepalive_v2: bool,
) -> RemoteServerManagerConfig {
    RemoteServerManagerConfig {
        auto_reconnect_enabled: keepalive_v2 && settings.auto_reconnect_enabled,
        max_attempts: if keepalive_v2 && settings.auto_reconnect_max_attempts > 1 {
            settings.auto_reconnect_max_attempts
        } else {
            1
        },
        initial_backoff_secs: 1,
        max_backoff_secs: 30,
    }
}

impl Default for SshSettings {
    fn default() -> (settings: Self)
        ensures
            settings == default_settings(),
    {
        SshSettings {
            enable_legacy_ssh_wrapper: true,
            keepalive_interval_secs: 30,
            keepalive_max_failures: 3,
            tcp_keepalive_enabled: true,
            auto_reconnect_enabled: true,
            auto_reconnect_max_attempts: 10,
            sftp_stale_threshold_secs: 60,
        }
    }
}

impl SshSettings {
    /// The keepalive options that the settings ask for; without the feature flag, none.
    pub fn keepalive_options(&self, keepalive_v2: bool) -> (options: SshKeepaliveOptions)
        ensures
            options == keepalive_of(*self, keepalive_v2),
    {
        if !keepalive_v2 {
            return SshKeepaliveOptions::default();
        }
        SshKeepaliveOptions {
            server_alive_interval_secs: Some(self.keepalive_interval_secs),
            server_alive_count_max: Some(self.keepalive_max_failures),
            tcp_keepalive_enabled: Some(self.tcp_keepalive_enabled),
        }
    }

    /// How the manager of the remote servers is to reconnect; without the feature flag, not at all.
    pub fn remote_server_manager_config(&self, keepalive_v2: bool) -> (config:
        RemoteServerManagerConfig)
        ensures
            config == manager_config_of(*self, keepalive_v2),
    {
        if !keepalive_v2 {
            return RemoteServerManagerConfig {
                auto_reconnect_enabled: false,
                max_attempts: 1,
                initial_backoff_secs: 1,
                max_backoff_secs: 30,
            };
        }
        let max_attempts: u32 = if self.auto_reconnect_max_attempts < 1 {
            1
        } else {
            self.auto_reconnect_max_attempts
        };
        RemoteServerManagerConfig {
            auto_reconnect_enabled: self.auto_reconnect_enabled,
            max_attempts,
            initial_backoff_secs: 1,
            max_backoff_secs: 30,
        }
    }
}

/// Whatever the settings say, at least one attempt is made, and the waiting time has room to grow.
pub proof fn law_manager_always_has_an_attempt(settings: SshSettings, keepalive_v2: bool)
    ensures
        ({
            let config = manager_config_of(settings, keepalive_v2);
            &&& config.max_attempts >= 1
            &&& 0 < config.initial_backoff_secs <= config.max_backoff_secs
        }),
{
}

/// Without the feature flag no program gets a keepalive argument, and nothing reconnects by itself.
pub proof fn law_feature_off_changes_nothing(settings: SshSettings)
    ensures
        ssh::keepalive_args(keepalive_of(settings, false)) == Seq::<Seq<char>>::empty(),
        !manager_config_of(settings, false).auto_reconnect_enabled,
        manager_config_of(settings, false).max_attempts == 1,
{
    assert(ssh::keepalive_args(ssh::no_keepalive()) =~= Seq::<Seq<char>>::empty());
}

/// With the feature flag the numbers of the settings reach the programs as they are, in this order.
pub proof fn law_settings_reach_the_arguments(settings: SshSettings)
    ensures
        ssh::keepalive_args(keepalive_of(settings, true)) == ssh::setting(
            "ServerAliveInterval="@ + text::decimal(settings.keepalive_interval_secs as nat),
        ) + ssh::setting(
            "ServerAliveCountMax="@ + text::decimal(settings.keepalive_max_failures as nat),
        ) + ssh::setting(
            if settings.tcp_keepalive_enabled {
                "TCPKeepAlive=yes"@
            } else {
                "TCPKeepAlive=no"@
            },
        ),
{
}

/// With the feature flag each option is set, to what its own setting says; without it, none is set.
pub proof fn law_each_setting_becomes_its_option(settings: SshSettings)
    ensures
        keepalive_of(settings, true).server_alive_interval_secs == Some(
            settings.keepalive_interval_secs,
        ),
        keepalive_of(settings, true).server_alive_count_max == Some(
            settings.keepalive_max_failures,
        ),
        keepalive_of(settings, true).tcp_keepalive_enabled == Some(settings.tcp_keepalive_enabled),
        keepalive_of(settings, false).server_alive_interval_secs is None,
        keepalive_of(settings, false).server_alive_count_max is None,
        keepalive_of(settings, false).tcp_keepalive_enabled is None,
{
}

/// With the feature flag the manager reconnects if the user wants it, as often as the user says, where no
/// attempt at all counts as one; without it, the manager is left at a single attempt. It always waits
/// one second at first and half a minute at most.
pub proof fn law_manager_follows_the_settings(settings: SshSettings, keepalive_v2: bool)
    ensures
        ({
            let config = manager_config_of(settings, keepalive_v2);
            let wanted = settings.auto_reconnect_max_attempts;
            &&& keepalive_v2 ==> config.auto_reconnect_enabled == settings.auto_reconnect_enabled
            &&& keepalive_v2 && wanted >= 1 ==> config.max_attempts == wanted
            &&& keepalive_v2 && wanted == 0 ==> config.max_attempts == 1
            &&& !keepalive_v2 ==> !config.auto_reconnect_enabled && config.max_attempts == 1
            &&& config.initial_backoff_secs == 1
            &&& config.max_backoff_secs == 30
        }),
{
}

/// A user who has changed nothing has everything switched on: with the feature flag a connection is probed
/// every half minute, given up after three misses, and brought back with up to ten attempts.
pub proof fn law_defaults_switch_everything_on()
    ensures
        ({
            let settings = default_settings();
            let options = keepalive_of(settings, true);
            let config = manager_config_of(settings, true);
            &&& settings.enable_legacy_ssh_wrapper
            &&& options.server_alive_interval_secs == Some(30u64)
            &&& options.server_alive_count_max == Some(3u32)
            &&& options.tcp_keepalive_enabled == Some(true)
            &&& config.auto_reconnect_enabled && config.max_attempts == 10
            &&& settings.sftp_stale_threshold_secs == 60
        }),
{
}

} // verus!
