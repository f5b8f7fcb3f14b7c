use vstd::prelude::*;

verus! {

/// How far, in milliseconds, the audio may drift from the game clock before
/// it is moved back into place.
pub const GAME_RESYNC_THRESHOLD: i128 = 50;

/// What the audio engine reports about the song.
#[derive(Clone, Copy, Debug, PartialEq, Eq, Structural)]
pub enum PlaybackState {
    /// Playing, at `position_ms` of the track.
    Playing { position_ms: u64 },
    Paused,
    /// Stopped, or no such song: both call for a resume.
    Stopped,
}

/// A corrective command for the audio engine.
#[derive(Clone, Copy, Debug, PartialEq, Eq, Structural)]
pub enum AudioCommand {
    Nothing,
    Resume,
    /// Seek to `position_ms` of the track, then resume.
    SeekAndResume { position_ms: u128 },
}

/// Track position converted to game time: divided by the play speed
/// (in thousandths).
pub open spec fn audio_game_ms(position_ms: nat, play_speed: nat) -> int {
    (position_ms * 1000 / play_speed) as int
}

pub open spec fn abs(v: int) -> int {
    if v < 0 {
        -v
    } else {
        v
    }
}

/// The command that keeps the audio on the game clock at `time_ms`.
pub open spec fn resync_command(state: PlaybackState, time_ms: nat, play_speed: nat) -> AudioCommand {
    match state {
        PlaybackState::Playing { position_ms } => {
            if abs(audio_game_ms(position_ms as nat, play_speed) - time_ms) >= GAME_RESYNC_THRESHOLD {
                AudioCommand::SeekAndResume { position_ms: (time_ms * 1000 / play_speed) as u128 }
            } else {
                AudioCommand::Nothing
            }
        },
        _ => AudioCommand::Resume,
    }
}

/// Decides how to correct the audio engine at game time `current_time_ms`:
/// resume it when it is not playing; when it plays but has drifted by the
/// threshold or more, seek it to the game time divided by the play speed
/// and resume; else leave it.
pub fn resync_audio(state: PlaybackState, current_time_ms: u64, play_speed: u32) -> (r: AudioCommand)
    requires
        play_speed > 0,
    ensures
        r == resync_command(state, current_time_ms as nat, play_speed as nat),
{
    match state {
        PlaybackState::Playing { position_ms } => {
            let audio_ms = (position_ms as u128 * 1000 / play_speed as u128) as i128;
            let offset = audio_ms - current_time_ms as i128;
            let drift = if offset < 0 { -offset } else { offset };
            if drift >= GAME_RESYNC_THRESHOLD {
                AudioCommand::SeekAndResume {
                    position_ms: current_time_ms as u128 * 1000 / play_speed as u128,
                }
            } else {
                AudioCommand::Nothing
            }
        },
        _ => AudioCommand::Resume,
    }
}

} // verus!
