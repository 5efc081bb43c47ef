//! The packages that the application updates itself from on Linux.

use vstd::prelude::*;

verus! {

/// The release channels.
#[derive(Clone, Copy, Debug, PartialEq, Eq, Structural)]
pub enum Channel {
    Stable,
    Dev,
}

/// The name of the package of a channel.
pub fn package_name(channel: Channel) -> (name: &'static str)
    ensures
        name@ == (match channel {
            Channel::Stable => "warp-terminal"@,
            Channel::Dev => "warp-terminal-dev"@,
        }),
{
    match channel {
        Channel::Stable => "warp-terminal",
        Channel::Dev => "warp-terminal-dev",
    }
}

} // verus!
