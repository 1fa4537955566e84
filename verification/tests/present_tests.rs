use animbg::present::{PlaybackAction, PlaybackLoop, PlaybackPhase, RootBackground};

#[test]
fn frames_are_presented_strictly_in_sequence() {
    let mut pl = PlaybackLoop::new(4, 42);
    pl.start();
    let mut shown = Vec::new();
    for _ in 0..6 {
        match pl.tick(true) {
            PlaybackAction::Present { frame } => shown.push(frame),
            PlaybackAction::Restore { .. } => panic!("no restore while running"),
        }
    }
    assert_eq!(shown, vec![0, 1, 2, 3, 0, 1]);
}

#[test]
fn stopping_restores_the_prior_background_exactly_once() {
    // The background before the run.
    let before = RootBackground { xroot_pmap: 42, esetroot_pmap: 42, installed: 42 };
    let monitor_pixmap = 7;

    let mut pl = PlaybackLoop::new(3, before.xroot_pmap);
    pl.start();
    let mut bg = before;
    // A few presented frames change the visible background...
    for _ in 0..5 {
        match pl.tick(true) {
            PlaybackAction::Present { .. } => {
                bg = bg.present(monitor_pixmap);
            },
            PlaybackAction::Restore { .. } => panic!("no restore while running"),
        }
    }
    assert_eq!(bg.xroot_pmap, 7);
    // ...and the stop tick puts the captured pixmap back.
    match pl.tick(false) {
        PlaybackAction::Restore { pixmap } => {
            bg = bg.present(pixmap);
        },
        PlaybackAction::Present { .. } => panic!("stop must restore"),
    }
    assert_eq!(bg.xroot_pmap, before.xroot_pmap);
    assert_eq!(bg.esetroot_pmap, before.esetroot_pmap);
    assert_eq!(bg.installed, before.xroot_pmap);
    assert!(matches!(pl.phase, PlaybackPhase::Stopped));
}

#[test]
fn a_fresh_engine_is_idle_at_cycle_zero() {
    let pl = PlaybackLoop::new(2, 9);
    assert!(matches!(pl.phase, PlaybackPhase::Idle));
    assert_eq!(pl.cycle, 0);
    assert_eq!(pl.frame_count, 2);
    assert_eq!(pl.prior_background, 9);
}

#[test]
fn presenting_names_the_pixmap_in_both_atoms() {
    let bg = RootBackground { xroot_pmap: 1, esetroot_pmap: 2, installed: 3 };
    let after = bg.present(55);
    assert_eq!(after.xroot_pmap, 55);
    assert_eq!(after.esetroot_pmap, 55);
    assert_eq!(after.installed, 55);
}
