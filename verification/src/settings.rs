//! The user's settings: Discord presence and lyrics.

use vstd::prelude::*;

use crate::discord::{DiscordRPC, Presence, presence_ok};

verus! {

/// The settings of the running app.
pub struct AppSettings {
    pub discord_enabled: bool,
    /// The presence state, when presence could be set up.
    pub discord_rpc: Option<DiscordRPC>,
    pub lyrics_enabled: bool,
}

impl AppSettings {
    /// The settings at startup: presence and lyrics both enabled.
    pub fn new(discord_rpc: Option<DiscordRPC>) -> (r: AppSettings)
        ensures
            r.discord_enabled,
            r.lyrics_enabled,
            r.discord_rpc == discord_rpc,
    {
        AppSettings { discord_enabled: true, discord_rpc, lyrics_enabled: true }
    }

    /// Enables or disables Discord presence, in the settings and in the
    /// presence state; answers whether the activity shown must be cleared.
    pub fn set_discord_enabled(&mut self, enabled: bool) -> (clear: bool)
        ensures
            final(self).discord_enabled == enabled,
            final(self).lyrics_enabled == old(self).lyrics_enabled,
            match old(self).discord_rpc {
                Some(rpc) => (final(self).discord_rpc matches Some(new_rpc) && new_rpc.enabled
                    == enabled && new_rpc.connected == rpc.connected && clear == (!enabled
                    && rpc.connected)),
                None => final(self).discord_rpc is None && !clear,
            },
    {
        self.discord_enabled = enabled;
        match self.discord_rpc.take() {
            Some(mut rpc) => {
                let clear = rpc.set_enabled(enabled);
                self.discord_rpc = Some(rpc);
                clear
            },
            None => false,
        }
    }

    /// Enables or disables lyrics.
    pub fn set_lyrics_enabled(&mut self, enabled: bool)
        ensures
            final(self).lyrics_enabled == enabled,
            final(self).discord_enabled == old(self).discord_enabled,
            final(self).discord_rpc == old(self).discord_rpc,
    {
        self.lyrics_enabled = enabled;
    }
}

/// The activity sent by the presence test: a test track by a test artist,
/// first of one.
pub fn test_presence(rpc: &DiscordRPC) -> (r: Option<Presence>)
    ensures
        !rpc.enabled ==> r is None,
        rpc.enabled ==> (r matches Some(p) && presence_ok(
            p,
            "TEST TRACK"@,
            "OBEL TEST ARTIST"@,
            None,
            Some(1u32),
            Some(1u32),
            None,
            None,
        )),
{
    rpc.update_presence("TEST TRACK", "OBEL TEST ARTIST", None, Some(1), Some(1), None, None)
}

} // verus!
