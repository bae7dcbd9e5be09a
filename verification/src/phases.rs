//! The screen phases: the splash animation, the reveal of the logo, and the
//! chat itself, and when one gives way to the next.

use vstd::prelude::*;
use vstd::slice::slice_to_vec;
use crate::app::AppFlow;
use crate::input::keymap::{handle_key, key_fits, key_handled, Action};
use crate::intro_anim::LogoAnim;
use crate::keys::KeyEvent;
use std::time::{Duration, Instant};

verus! {

#[verifier::external_type_specification]
#[verifier::external_body]
pub struct ExInstant(Instant);

/// The current time.
///
/// Trusted: calls `std::time::Instant::now`; nothing is stated of the
/// instant.
#[verifier::external_body]
fn instant_now() -> Instant {
    Instant::now()
}

/// The time passed since `start`.
///
/// Trusted: calls `std::time::Instant::elapsed`; nothing is stated of the
/// duration, as it depends on the clock.
#[verifier::external_body]
fn elapsed_since(start: &Instant) -> Duration {
    start.elapsed()
}

/// The whole milliseconds of a duration.
///
/// Trusted: calls `std::time::Duration::as_millis`; nothing is stated of the
/// result (a `Duration` is opaque here).
#[verifier::external_body]
fn whole_millis(d: Duration) -> u128 {
    d.as_millis()
}

/// How long the logo takes to rise, in milliseconds.
pub const REVEAL_MS: u128 = 700;

/// The phase of the screen.
pub enum AppPhase {
    /// The logo animation plays; it started at the given instant.
    Splash(Instant),
    /// The logo's last frame rises into place; this started at `start`.
    Reveal { start: Instant, pixels: Vec<u8> },
    /// The chat is shown.
    Normal,
}

/// The last frame of the animation, or no pixels.
pub open spec fn last_pixels(anim: LogoAnim) -> Seq<u8> {
    if anim.frames@.len() > 0 {
        anim.frames@.last()@
    } else {
        Seq::empty()
    }
}

/// Whether `next` is the phase that follows `phase` once it has run for
/// `elapsed_ms` milliseconds, a reveal starting at `now`: the splash gives way
/// to the reveal of the last frame once the animation is over, the reveal
/// gives way to the chat after 700 ms, and otherwise the phase stays.
pub open spec fn phase_follows(
    phase: AppPhase,
    anim: LogoAnim,
    elapsed_ms: u128,
    now: Instant,
    next: AppPhase,
) -> bool {
    match phase {
        AppPhase::Splash(t) => if elapsed_ms >= anim.total_ms {
            next matches AppPhase::Reveal { start, pixels } && start == now && pixels@
                == last_pixels(anim)
        } else {
            next == AppPhase::Splash(t)
        },
        AppPhase::Reveal { start, pixels } => if elapsed_ms >= REVEAL_MS {
            next is Normal
        } else {
            next == (AppPhase::Reveal { start, pixels })
        },
        AppPhase::Normal => next is Normal,
    }
}

/// The phase that follows `phase` once it has run for `elapsed_ms`
/// milliseconds, a reveal starting at `now`.
pub fn phase_after(phase: AppPhase, anim: &LogoAnim, elapsed_ms: u128, now: Instant) -> (next:
    AppPhase)
    ensures
        phase_follows(phase, *anim, elapsed_ms, now, next),
{
    match phase {
        AppPhase::Splash(t) => {
            if elapsed_ms >= anim.total_ms as u128 {
                let px = slice_to_vec(anim.last_frame());
                assert(px@ =~= last_pixels(*anim));
                AppPhase::Reveal { start: now, pixels: px }
            } else {
                AppPhase::Splash(t)
            }
        },
        AppPhase::Reveal { start, pixels } => {
            if elapsed_ms >= REVEAL_MS {
                AppPhase::Normal
            } else {
                AppPhase::Reveal { start, pixels }
            }
        },
        AppPhase::Normal => AppPhase::Normal,
    }
}

/// The phase for this tick: the phase that follows `phase` after the time it
/// has run so far, by the clock.
pub fn updated_phase(phase: AppPhase, anim: &LogoAnim) -> (next: AppPhase)
    ensures
        exists|elapsed_ms: u128, now: Instant| #[trigger]
            phase_follows(phase, *anim, elapsed_ms, now, next),
{
    let elapsed_ms = match &phase {
        AppPhase::Splash(t) => whole_millis(elapsed_since(t)),
        AppPhase::Reveal { start, .. } => whole_millis(elapsed_since(start)),
        AppPhase::Normal => 0,
    };
    let now = instant_now();
    let next = phase_after(phase, anim, elapsed_ms, now);
    next
}

/// Handles a key press in the given phase: during the intro (the splash or
/// the reveal) any key skips to the chat and does nothing else; in the chat
/// the key goes to the key map. Gives the phase to go on with and what the
/// caller should do.
pub fn phase_on_key(phase: AppPhase, flow: &mut AppFlow, key: KeyEvent) -> (r: (AppPhase, Action))
    requires
        old(flow).wf(),
        phase is Normal ==> key_fits(*old(flow), key),
    ensures
        final(flow).wf(),
        r.0 is Normal,
        !(phase is Normal) ==> r.1 == Action::Continue && *final(flow) == *old(flow),
        phase is Normal ==> key_handled(*old(flow), *final(flow), key, r.1),
{
    match phase {
        AppPhase::Normal => {
            let action = handle_key(flow, key);
            (AppPhase::Normal, action)
        },
        _ => (AppPhase::Normal, Action::Continue),
    }
}

/// How the phases follow one another: the splash plays until the animation
/// is over, then gives way to a reveal, starting now, of the animation's last
/// frame (no pixels if it has none); the reveal gives way to the chat after
/// 700 ms; the chat stays. Before its time a phase stays as it is.
pub proof fn law_phases_follow(
    phase: AppPhase,
    anim: LogoAnim,
    elapsed_ms: u128,
    now: Instant,
    next: AppPhase,
)
    requires
        phase_follows(phase, anim, elapsed_ms, now, next),
    ensures
        phase is Splash && elapsed_ms >= anim.total_ms ==> (next matches AppPhase::Reveal {
            start,
            pixels,
        } && start == now && (if anim.frames@.len() > 0 {
            pixels@ == anim.frames@[anim.frames@.len() - 1]@
        } else {
            pixels@.len() == 0
        })),
        phase is Splash && elapsed_ms < anim.total_ms ==> next == phase,
        phase is Reveal && elapsed_ms >= 700 ==> next is Normal,
        phase is Reveal && elapsed_ms < 700 ==> next == phase,
        phase is Normal ==> next is Normal,
{
}

} // verus!
