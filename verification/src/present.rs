//! The presenter and the playback loop.
//!
//! The window-system side of presentation — copying a composited frame
//! into the monitor's backing store and the root-window pixmap protocol
//! — is pure effect; what this module verifies is the protocol's state:
//! which pixmap the two root-window atoms and the window background name
//! at every step, and the playback loop's engine, which decides, tick by
//! tick, which cached frame to present and when to restore the
//! background that was installed before the run.

use vstd::prelude::*;

verus! {

/// A monitor: the root window, the backing-store pixmap created for it,
/// and its canvas size. The handles are the window system's plain ids.
#[derive(Clone, Copy, Debug)]
pub struct Monitor {
    pub root: u64,
    pub pixmap: u64,
    pub width: u32,
    pub height: u32,
}

/// The root window's background state: the legacy `_XROOTPMAP_ID` atom,
/// the `ESETROOT_PMAP_ID` convention atom, and the pixmap installed as
/// the window background. All three name pixmaps by id.
#[derive(Clone, Copy, Debug, PartialEq, Eq, Structural)]
pub struct RootBackground {
    pub xroot_pmap: u64,
    pub esetroot_pmap: u64,
    pub installed: u64,
}

impl RootBackground {
    /// Both atoms and the installed background name `pixmap`: the state
    /// after the root-window protocol has run with that pixmap.
    pub open spec fn names(self, pixmap: u64) -> bool {
        self.xroot_pmap == pixmap && self.esetroot_pmap == pixmap && self.installed == pixmap
    }

    /// The protocol steps that make `pixmap` the visible background:
    /// set both atoms to it, replacing any prior value, and install it
    /// as the window background.
    pub fn present(self, pixmap: u64) -> (r: RootBackground)
        ensures
            r.names(pixmap),
    {
        RootBackground { xroot_pmap: pixmap, esetroot_pmap: pixmap, installed: pixmap }
    }
}

/// The playback loop's lifecycle.
#[derive(Clone, Copy, Debug, PartialEq, Eq, Structural)]
pub enum PlaybackPhase {
    /// The output sequence cache is still being built.
    Idle,
    /// Frames are being presented.
    Running,
    /// The loop has restored the prior background and terminated.
    Stopped,
}

/// What the loop asks its surroundings to do on one tick.
#[derive(Clone, Copy, Debug, PartialEq, Eq, Structural)]
pub enum PlaybackAction {
    /// Render cache entry `frame` into the backing store and run the
    /// presentation protocol with the monitor's pixmap.
    Present { frame: usize },
    /// Run the presentation protocol with `pixmap`, restoring it as the
    /// background, and stop.
    Restore { pixmap: u64 },
}

/// The playback engine: selects frames strictly sequentially by `cycle`
/// and, once stopping is requested, restores the pre-run background
/// exactly once.
#[derive(Clone, Copy, Debug)]
pub struct PlaybackLoop {
    /// How many frames the output sequence cache holds.
    pub frame_count: usize,
    /// The pixmap that was the background before this run started.
    pub prior_background: u64,
    /// Monotonically increasing tick counter; the presented frame is
    /// `cycle mod frame_count`.
    pub cycle: u64,
    /// Where in its lifecycle the loop stands.
    pub phase: PlaybackPhase,
}

impl PlaybackLoop {
    /// An engine over a non-empty cache.
    pub open spec fn wf(self) -> bool {
        self.frame_count >= 1
    }

    /// Create the engine for a cache of `frame_count` frames, capturing
    /// the pre-run background pixmap that shutdown must restore.
    pub fn new(frame_count: usize, prior_background: u64) -> (r: PlaybackLoop)
        requires
            frame_count >= 1,
        ensures
            r.wf(),
            r.frame_count == frame_count,
            r.prior_background == prior_background,
            r.cycle == 0,
            r.phase == PlaybackPhase::Idle,
    {
        PlaybackLoop { frame_count, prior_background, cycle: 0, phase: PlaybackPhase::Idle }
    }

    /// The cache is fully built: enter steady-state playback.
    pub fn start(&mut self)
        requires
            old(self).phase == PlaybackPhase::Idle,
        ensures
            *final(self) == (PlaybackLoop { phase: PlaybackPhase::Running, ..*old(self) }),
    {
        self.phase = PlaybackPhase::Running;
    }

    /// What one tick does to the engine and asks of its surroundings.
    /// While `running` holds, the tick presents frame
    /// `cycle mod frame_count` and advances the cycle by exactly one:
    /// no frame is skipped and none is presented out of order. Once
    /// `running` is withdrawn, the tick asks for the pre-run background
    /// to be restored and the loop terminates.
    pub open spec fn spec_tick(self, running: bool) -> (PlaybackLoop, PlaybackAction) {
        if running {
            (
                PlaybackLoop { cycle: (self.cycle + 1) as u64, ..self },
                PlaybackAction::Present { frame: (self.cycle as int % self.frame_count as int) as usize },
            )
        } else {
            (
                PlaybackLoop { phase: PlaybackPhase::Stopped, ..self },
                PlaybackAction::Restore { pixmap: self.prior_background },
            )
        }
    }

    /// One tick of the playback loop. The caller observes the
    /// cancellation flag once per tick and passes it in.
    pub fn tick(&mut self, running: bool) -> (a: PlaybackAction)
        requires
            old(self).wf(),
            old(self).phase == PlaybackPhase::Running,
            old(self).cycle < u64::MAX,
        ensures
            final(self).wf(),
            (*final(self), a) == old(self).spec_tick(running),
            running ==> final(self).phase == PlaybackPhase::Running && a == (
            PlaybackAction::Present { frame: (old(self).cycle % old(self).frame_count as u64) as usize }),
            !running ==> final(self).phase == PlaybackPhase::Stopped && a == (
            PlaybackAction::Restore { pixmap: old(self).prior_background }),
    {
        if running {
            let frame = (self.cycle % (self.frame_count as u64)) as usize;
            proof {
                assert(self.cycle as int % self.frame_count as int == self.cycle % (
                self.frame_count as u64));
            }
            self.cycle = self.cycle + 1;
            PlaybackAction::Present { frame }
        } else {
            self.phase = PlaybackPhase::Stopped;
            PlaybackAction::Restore { pixmap: self.prior_background }
        }
    }
}

/// What carrying out one playback action does to the root window's
/// background state: both actions run the presentation protocol, with
/// the monitor's backing store for `Present` and with the saved pixmap
/// for `Restore`.
pub open spec fn spec_apply(bg: RootBackground, monitor_pixmap: u64, a: PlaybackAction) -> RootBackground {
    match a {
        PlaybackAction::Present { frame } => RootBackground {
            xroot_pmap: monitor_pixmap,
            esetroot_pmap: monitor_pixmap,
            installed: monitor_pixmap,
        },
        PlaybackAction::Restore { pixmap } => RootBackground {
            xroot_pmap: pixmap,
            esetroot_pmap: pixmap,
            installed: pixmap,
        },
    }
}

/// A whole playback session over the root-background model: tick the
/// engine once per flag observation, carry out the action, and stop
/// ticking once the loop has stopped.
pub open spec fn spec_session(
    pl: PlaybackLoop,
    bg: RootBackground,
    monitor_pixmap: u64,
    flags: Seq<bool>,
) -> (PlaybackLoop, RootBackground)
    decreases flags.len(),
{
    if flags.len() == 0 || pl.phase != PlaybackPhase::Running {
        (pl, bg)
    } else {
        let (pl2, a) = pl.spec_tick(flags[0]);
        spec_session(pl2, spec_apply(bg, monitor_pixmap, a), monitor_pixmap, flags.skip(1))
    }
}

/// Shutdown restoration: however long a session ran and whatever frames
/// it presented, once it has stopped, both root-window pixmap atoms
/// equal their pre-run values. The engine captures the pre-run
/// `_XROOTPMAP_ID` pixmap; the lemma asks that the two atom conventions
/// agreed before the run, as every background-setting tool leaves them.
pub proof fn lemma_shutdown_restores(
    pl: PlaybackLoop,
    bg: RootBackground,
    monitor_pixmap: u64,
    flags: Seq<bool>,
)
    requires
        pl.phase == PlaybackPhase::Running,
        pl.prior_background == bg.xroot_pmap,
        bg.esetroot_pmap == bg.xroot_pmap,
    ensures
        ({
            let (pl2, bg2) = spec_session(pl, bg, monitor_pixmap, flags);
            &&& pl2.prior_background == pl.prior_background
            &&& pl2.phase == PlaybackPhase::Stopped ==> bg2.xroot_pmap == bg.xroot_pmap
                && bg2.esetroot_pmap == bg.esetroot_pmap && bg2.installed == bg.xroot_pmap
        }),
    decreases flags.len(),
{
    if flags.len() == 0 {
    } else {
        let (pl2, a) = pl.spec_tick(flags[0]);
        let bg2 = spec_apply(bg, monitor_pixmap, a);
        if flags[0] {
            lemma_session_stopped_restores(pl2, bg2, monitor_pixmap, flags.skip(1), pl.prior_background);
        } else {
            // The restore action carries the captured pixmap, and a
            // stopped loop ticks no further.
            assert(bg2.names(pl.prior_background));
            assert(spec_session(pl2, bg2, monitor_pixmap, flags.skip(1)) == (pl2, bg2));
        }
    }
}

/// After any prefix of presentations, a session that stops restores the
/// captured background.
proof fn lemma_session_stopped_restores(
    pl: PlaybackLoop,
    bg: RootBackground,
    monitor_pixmap: u64,
    flags: Seq<bool>,
    prior: u64,
)
    requires
        pl.prior_background == prior,
    ensures
        ({
            let (pl2, bg2) = spec_session(pl, bg, monitor_pixmap, flags);
            &&& pl2.prior_background == prior
            &&& pl2.phase == PlaybackPhase::Stopped && pl.phase == PlaybackPhase::Running
                ==> bg2.names(prior)
            &&& pl.phase != PlaybackPhase::Running ==> (pl2, bg2) == (pl, bg)
        }),
    decreases flags.len(),
{
    if flags.len() == 0 || pl.phase != PlaybackPhase::Running {
    } else {
        let (pl2, a) = pl.spec_tick(flags[0]);
        lemma_session_stopped_restores(
            pl2,
            spec_apply(bg, monitor_pixmap, a),
            monitor_pixmap,
            flags.skip(1),
            prior,
        );
    }
}

} // verus!
