use std::time::Instant;
use stow::intro_anim::{Disposal, LogoAnim, RawFrame};
use stow::app::AppFlow;
use stow::input::keymap::Action;
use stow::keys::{KeyCode, KeyEvent, KeyModifiers};
use stow::phases::{phase_after, phase_on_key, updated_phase, AppPhase};

fn anim_of(delays: &[u16]) -> LogoAnim {
    let frames: Vec<RawFrame> = delays
        .iter()
        .map(|&delay| RawFrame {
            width: 1,
            height: 1,
            left: 0,
            top: 0,
            delay,
            dispose: Disposal::Keep,
            buffer: vec![9, 8, 7, 255],
        })
        .collect();
    LogoAnim::from_frames(1, 1, &frames)
}

#[test]
fn splash_gives_way_to_reveal_of_last_frame() {
    let anim = anim_of(&[5, 5]);
    let now = Instant::now();
    match phase_after(AppPhase::Splash(now), &anim, 99, now) {
        AppPhase::Splash(_) => {}
        _ => panic!("splash should stay"),
    }
    match phase_after(AppPhase::Splash(now), &anim, 100, now) {
        AppPhase::Reveal { pixels, .. } => assert_eq!(pixels, vec![9, 8, 7, 255]),
        _ => panic!("reveal should start"),
    }
}

#[test]
fn reveal_gives_way_to_chat_after_700_ms() {
    let anim = anim_of(&[1]);
    let now = Instant::now();
    let reveal = AppPhase::Reveal { start: now, pixels: vec![1, 2, 3, 4] };
    match phase_after(reveal, &anim, 699, now) {
        AppPhase::Reveal { pixels, .. } => assert_eq!(pixels, vec![1, 2, 3, 4]),
        _ => panic!("reveal should stay"),
    }
    let reveal = AppPhase::Reveal { start: now, pixels: vec![] };
    assert!(matches!(phase_after(reveal, &anim, 700, now), AppPhase::Normal));
    assert!(matches!(phase_after(AppPhase::Normal, &anim, 0, now), AppPhase::Normal));
}

#[test]
fn updated_phase_by_the_clock() {
    let long = anim_of(&[60000]);
    assert!(matches!(updated_phase(AppPhase::Splash(Instant::now()), &long), AppPhase::Splash(_)));
    assert!(matches!(updated_phase(AppPhase::Normal, &long), AppPhase::Normal));
    let empty = LogoAnim::from_frames(1, 1, &vec![]);
    match updated_phase(AppPhase::Splash(Instant::now()), &empty) {
        AppPhase::Reveal { pixels, .. } => assert!(pixels.is_empty()),
        _ => panic!("an empty animation is over at once"),
    }
}

#[test]
fn a_key_during_the_intro_skips_to_the_chat() {
    let mut flow = AppFlow::init_flow();
    let (next, action) = phase_on_key(
        AppPhase::Splash(Instant::now()),
        &mut flow,
        KeyEvent::from_code(KeyCode::Char('a')),
    );
    assert!(matches!(next, AppPhase::Normal));
    assert_eq!(action, Action::Continue);
    assert_eq!(flow.prompt_area.text(), "");

    let reveal = AppPhase::Reveal { start: Instant::now(), pixels: vec![] };
    let (next, action) = phase_on_key(
        reveal,
        &mut flow,
        KeyEvent::new(KeyCode::Char('c'), KeyModifiers::control()),
    );
    assert!(matches!(next, AppPhase::Normal));
    assert_eq!(action, Action::Continue);
}

#[test]
fn a_key_in_the_chat_goes_to_the_key_map() {
    let mut flow = AppFlow::init_flow();
    let (next, action) =
        phase_on_key(AppPhase::Normal, &mut flow, KeyEvent::from_code(KeyCode::Char('a')));
    assert!(matches!(next, AppPhase::Normal));
    assert_eq!(action, Action::Continue);
    assert_eq!(flow.prompt_area.text(), "a");
    let (_, action) = phase_on_key(
        AppPhase::Normal,
        &mut flow,
        KeyEvent::new(KeyCode::Char('c'), KeyModifiers::control()),
    );
    assert_eq!(action, Action::Quit);
}
