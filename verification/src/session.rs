//! The session state: the schematic (parameters plus the tabulated path of M)
//! and the event-driven model around it.
//!
//! Events arrive one at a time and each runs to completion, so a tick always
//! sees the state as the previous event left it. The schematic's path is
//! retabulated by every parameter setter: a stale tabulation is a correctness
//! bug, and `Schematic::wf` pins the path to the current parameters so
//! staleness is ruled out by the invariant itself.

use vstd::prelude::*;
use crate::fixed::{SCALE, fdiv, lemma_fdiv_floor};
use crate::mechanism::{
    LinkageParameters, MechanismPose, Point2, MAX_LEN, MAX_RATIO, m_at, sample_progress, solve,
    solve_spec, solvable_at, tabulate,
};
use crate::animation::{AnimationState, advanced};
use crate::input::{TextInput, parse_scalar_i64, parse_scalar_spec};

verus! {

/// Number of evenly spaced samples the path of M is tabulated at.
pub const PATH_TABULATION_SIZE: usize = 500;

/// The linkage parameters together with the tabulated path of M and the
/// trace-visibility flag.
pub struct Schematic {
    /// The defining parameters; change them only through the setters, which
    /// keep the tabulation fresh.
    pub params: LinkageParameters,
    /// The tabulated path of M over one cycle.
    pub m_path: Vec<Option<Point2>>,
    /// Whether the trace of M's path is drawn.
    pub trace_path: bool,
}

impl Schematic {
    /// Parameters are admissible and the path is exactly the tabulation of the
    /// current parameters.
    pub open spec fn wf(&self) -> bool {
        &&& self.params.wf()
        &&& self.m_path@.len() == PATH_TABULATION_SIZE
        &&& forall|i: int|
            0 <= i < PATH_TABULATION_SIZE as int ==> self.m_path@[i] == m_at(
                self.params.oa as int,
                self.params.ab as int,
                self.params.am_per_ab as int,
                sample_progress(i, PATH_TABULATION_SIZE as int),
            )
    }

    /// The default schematic: both links of length 1.0, M at the middle of AB,
    /// trace off, freshly tabulated.
    pub fn new() -> (s: Schematic)
        ensures
            s.wf(),
            s.params == (LinkageParameters { oa: SCALE, ab: SCALE, am_per_ab: 500_000 }),
            s.trace_path == false,
    {
        let params = LinkageParameters { oa: 1_000_000, ab: 1_000_000, am_per_ab: 500_000 };
        let m_path = tabulate(&params, PATH_TABULATION_SIZE);
        Schematic { params, m_path, trace_path: false }
    }

    /// Set the length of OA and retabulate.
    pub fn set_oa(&mut self, oa: i64)
        requires
            old(self).wf(),
            0 <= oa <= MAX_LEN,
        ensures
            final(self).wf(),
            final(self).params.oa == oa,
            final(self).params.ab == old(self).params.ab,
            final(self).params.am_per_ab == old(self).params.am_per_ab,
            final(self).trace_path == old(self).trace_path,
    {
        self.params.oa = oa;
        self.m_path = tabulate(&self.params, PATH_TABULATION_SIZE);
    }

    /// Set the length of AB and retabulate.
    pub fn set_ab(&mut self, ab: i64)
        requires
            old(self).wf(),
            0 <= ab <= MAX_LEN,
        ensures
            final(self).wf(),
            final(self).params.ab == ab,
            final(self).params.oa == old(self).params.oa,
            final(self).params.am_per_ab == old(self).params.am_per_ab,
            final(self).trace_path == old(self).trace_path,
    {
        self.params.ab = ab;
        self.m_path = tabulate(&self.params, PATH_TABULATION_SIZE);
    }

    /// Set the ratio AM/AB and retabulate.
    pub fn set_am(&mut self, am_per_ab: i64)
        requires
            old(self).wf(),
            -MAX_RATIO <= am_per_ab <= MAX_RATIO,
        ensures
            final(self).wf(),
            final(self).params.am_per_ab == am_per_ab,
            final(self).params.oa == old(self).params.oa,
            final(self).params.ab == old(self).params.ab,
            final(self).trace_path == old(self).trace_path,
    {
        self.params.am_per_ab = am_per_ab;
        self.m_path = tabulate(&self.params, PATH_TABULATION_SIZE);
    }

    /// How many tabulated points a trace drawn up to `progress` covers: the
    /// floor of the progress fraction of the table.
    pub fn trace_len(&self, progress: i64) -> (n: usize)
        requires
            0 <= progress < SCALE,
        ensures
            n == fdiv((progress as int) * (PATH_TABULATION_SIZE as int), SCALE as int),
            n < PATH_TABULATION_SIZE,
    {
        let n64: u64 = ((progress as u64) * 500) / 1_000_000;
        proof {
            lemma_fdiv_floor((progress as int) * 500, 1_000_000);
        }
        n64 as usize
    }
}

/// An event delivered to the model, carrying plain values (a tick and an
/// autorun toggle carry the time stamp of the moment they happened).
#[derive(Clone, Copy, Debug, PartialEq, Eq, Structural)]
pub enum Message {
    OaChange(i64),
    AbChange(i64),
    AmPerAbChange(i64),
    PeriodChange(u64),
    Progress(i64),
    AutorunToggle { autorun: bool, now_us: u64 },
    TracePathToggle(bool),
    Tick(u64),
}

/// The whole session: the schematic, the animation controller and the three
/// validated text entries feeding it.
pub struct Model {
    pub schematic: Schematic,
    pub anim: AnimationState,
    pub oa_input: TextInput,
    pub ab_input: TextInput,
    pub period_input: TextInput,
}

impl Model {
    /// Every component is well formed.
    pub open spec fn wf(&self) -> bool {
        &&& self.schematic.wf()
        &&& self.anim.wf()
        &&& self.oa_input.wf()
        &&& self.ab_input.wf()
        &&& self.period_input.wf()
    }

    /// The initial session: the default schematic, autorun on with a period of
    /// three seconds referenced to `now_us`, and the entries showing the
    /// initial values.
    pub fn new(now_us: u64) -> (m: Model)
        ensures
            m.wf(),
            m.schematic.params == (LinkageParameters {
                oa: SCALE,
                ab: SCALE,
                am_per_ab: 500_000,
            }),
            m.schematic.trace_path == false,
            m.anim == (AnimationState {
                progress: 0,
                autorun: true,
                period_us: 3_000_000,
                last_tick_us: now_us,
            }),
            m.oa_input.buffer@ == "1"@,
            m.ab_input.buffer@ == "1"@,
            m.period_input.buffer@ == "3"@,
    {
        Model {
            schematic: Schematic::new(),
            anim: AnimationState::new(true, 3_000_000, now_us),
            oa_input: TextInput::new("1".to_owned()),
            ab_input: TextInput::new("1".to_owned()),
            period_input: TextInput::new("3".to_owned()),
        }
    }

    /// The solved pose at the current progress.
    pub fn pose(&self) -> (r: Option<MechanismPose>)
        requires
            self.wf(),
        ensures
            r == solve_spec(
                self.schematic.params.oa as int,
                self.schematic.params.ab as int,
                self.schematic.params.am_per_ab as int,
                self.anim.progress as int,
            ),
            r is Some <==> solvable_at(
                self.schematic.params.oa as int,
                self.schematic.params.ab as int,
                self.anim.progress as int,
            ),
    {
        solve(&self.schematic.params, self.anim.progress)
    }

    /// Process one event: each arm runs the corresponding transition and
    /// touches nothing else. The text entries are not events' business; they
    /// change only through the edit handlers below.
    pub fn update(&mut self, message: Message)
        requires
            old(self).wf(),
            match message {
                Message::OaChange(v) => 0 <= v <= MAX_LEN,
                Message::AbChange(v) => 0 <= v <= MAX_LEN,
                Message::AmPerAbChange(v) => -MAX_RATIO <= v <= MAX_RATIO,
                Message::Progress(p) => 0 <= p <= SCALE,
                Message::Tick(now_us) => old(self).anim.last_tick_us <= now_us,
                _ => true,
            },
        ensures
            final(self).wf(),
            final(self).oa_input == old(self).oa_input,
            final(self).ab_input == old(self).ab_input,
            final(self).period_input == old(self).period_input,
            match message {
                Message::OaChange(v) => {
                    &&& final(self).schematic.params.oa == v
                    &&& final(self).schematic.params.ab == old(self).schematic.params.ab
                    &&& final(self).schematic.params.am_per_ab == old(
                        self,
                    ).schematic.params.am_per_ab
                    &&& final(self).schematic.trace_path == old(self).schematic.trace_path
                    &&& final(self).anim == old(self).anim
                },
                Message::AbChange(v) => {
                    &&& final(self).schematic.params.ab == v
                    &&& final(self).schematic.params.oa == old(self).schematic.params.oa
                    &&& final(self).schematic.params.am_per_ab == old(
                        self,
                    ).schematic.params.am_per_ab
                    &&& final(self).schematic.trace_path == old(self).schematic.trace_path
                    &&& final(self).anim == old(self).anim
                },
                Message::AmPerAbChange(v) => {
                    &&& final(self).schematic.params.am_per_ab == v
                    &&& final(self).schematic.params.oa == old(self).schematic.params.oa
                    &&& final(self).schematic.params.ab == old(self).schematic.params.ab
                    &&& final(self).schematic.trace_path == old(self).schematic.trace_path
                    &&& final(self).anim == old(self).anim
                },
                Message::PeriodChange(period_us) => {
                    &&& final(self).anim.period_us == period_us
                    &&& final(self).anim.progress == old(self).anim.progress
                    &&& final(self).anim.autorun == old(self).anim.autorun
                    &&& final(self).anim.last_tick_us == old(self).anim.last_tick_us
                    &&& final(self).schematic == old(self).schematic
                },
                Message::Progress(p) => {
                    &&& final(self).anim.progress == (p as int) % (SCALE as int)
                    &&& final(self).anim.autorun == old(self).anim.autorun
                    &&& final(self).anim.period_us == old(self).anim.period_us
                    &&& final(self).anim.last_tick_us == old(self).anim.last_tick_us
                    &&& final(self).schematic == old(self).schematic
                },
                Message::AutorunToggle { autorun, now_us } => {
                    &&& final(self).anim.autorun == autorun
                    &&& final(self).anim.progress == old(self).anim.progress
                    &&& final(self).anim.period_us == old(self).anim.period_us
                    &&& (autorun ==> final(self).anim.last_tick_us == now_us)
                    &&& (!autorun ==> final(self).anim.last_tick_us == old(self).anim.last_tick_us)
                    &&& final(self).schematic == old(self).schematic
                },
                Message::TracePathToggle(trace) => {
                    &&& final(self).schematic.trace_path == trace
                    &&& final(self).schematic.params == old(self).schematic.params
                    &&& final(self).schematic.m_path == old(self).schematic.m_path
                    &&& final(self).anim == old(self).anim
                },
                Message::Tick(now_us) => {
                    &&& final(self).schematic == old(self).schematic
                    &&& final(self).anim.autorun == old(self).anim.autorun
                    &&& final(self).anim.period_us == old(self).anim.period_us
                    &&& final(self).anim.last_tick_us == now_us
                    &&& (old(self).anim.period_us == 0 ==> final(self).anim.progress == old(
                        self,
                    ).anim.progress)
                    &&& (old(self).anim.period_us != 0 ==> final(self).anim.progress == advanced(
                        old(self).anim.progress as int,
                        now_us - old(self).anim.last_tick_us,
                        old(self).anim.period_us as int,
                    ))
                },
            },
    {
        match message {
            Message::OaChange(v) => self.schematic.set_oa(v),
            Message::AbChange(v) => self.schematic.set_ab(v),
            Message::AmPerAbChange(v) => self.schematic.set_am(v),
            Message::PeriodChange(period_us) => self.anim.set_period(period_us),
            Message::Progress(p) => self.anim.set_progress(p),
            Message::AutorunToggle { autorun, now_us } => self.anim.toggle_autorun(
                autorun,
                now_us,
            ),
            Message::TracePathToggle(trace) => self.schematic.trace_path = trace,
            Message::Tick(now_us) => self.anim.tick(now_us),
        }
    }

    /// Handle an edit of the OA entry: the entry reparses, and the parameter
    /// takes the value exactly when the parse succeeded and is in range — an
    /// invalid or out-of-range text leaves the last good value in place.
    pub fn edit_oa(&mut self, text: String)
        requires
            old(self).wf(),
        ensures
            final(self).wf(),
            final(self).oa_input.buffer@ == text@,
            final(self).oa_input.parsed == parse_scalar_i64(text@),
            final(self).oa_input.valid <==> parse_scalar_spec(text@) is Some,
            ({
                let p = parse_scalar_i64(text@);
                if p is Some && 0 <= p->Some_0 <= MAX_LEN {
                    final(self).schematic.params.oa == p->Some_0
                } else {
                    final(self).schematic.params.oa == old(self).schematic.params.oa
                }
            }),
            final(self).schematic.params.ab == old(self).schematic.params.ab,
            final(self).schematic.params.am_per_ab == old(self).schematic.params.am_per_ab,
            final(self).schematic.trace_path == old(self).schematic.trace_path,
            final(self).anim == old(self).anim,
            final(self).ab_input == old(self).ab_input,
            final(self).period_input == old(self).period_input,
    {
        let parsed = self.oa_input.on_edit(text);
        match parsed {
            Some(v) => {
                if 0 <= v && v <= MAX_LEN {
                    self.schematic.set_oa(v);
                }
            },
            None => (),
        }
    }

    /// Handle an edit of the AB entry, exactly as for OA.
    pub fn edit_ab(&mut self, text: String)
        requires
            old(self).wf(),
        ensures
            final(self).wf(),
            final(self).ab_input.buffer@ == text@,
            final(self).ab_input.parsed == parse_scalar_i64(text@),
            final(self).ab_input.valid <==> parse_scalar_spec(text@) is Some,
            ({
                let p = parse_scalar_i64(text@);
                if p is Some && 0 <= p->Some_0 <= MAX_LEN {
                    final(self).schematic.params.ab == p->Some_0
                } else {
                    final(self).schematic.params.ab == old(self).schematic.params.ab
                }
            }),
            final(self).schematic.params.oa == old(self).schematic.params.oa,
            final(self).schematic.params.am_per_ab == old(self).schematic.params.am_per_ab,
            final(self).schematic.trace_path == old(self).schematic.trace_path,
            final(self).anim == old(self).anim,
            final(self).oa_input == old(self).oa_input,
            final(self).period_input == old(self).period_input,
    {
        let parsed = self.ab_input.on_edit(text);
        match parsed {
            Some(v) => {
                if 0 <= v && v <= MAX_LEN {
                    self.schematic.set_ab(v);
                }
            },
            None => (),
        }
    }

    /// Handle an edit of the period entry: scalar seconds in millionths are
    /// exactly microseconds, so a parsed nonnegative value is the new period;
    /// a negative or invalid text leaves the period unchanged.
    pub fn edit_period(&mut self, text: String)
        requires
            old(self).wf(),
        ensures
            final(self).wf(),
            final(self).period_input.buffer@ == text@,
            final(self).period_input.parsed == parse_scalar_i64(text@),
            final(self).period_input.valid <==> parse_scalar_spec(text@) is Some,
            ({
                let p = parse_scalar_i64(text@);
                if p is Some && p->Some_0 >= 0 {
                    final(self).anim.period_us == p->Some_0 as u64
                } else {
                    final(self).anim.period_us == old(self).anim.period_us
                }
            }),
            final(self).anim.progress == old(self).anim.progress,
            final(self).anim.autorun == old(self).anim.autorun,
            final(self).anim.last_tick_us == old(self).anim.last_tick_us,
            final(self).schematic == old(self).schematic,
            final(self).oa_input == old(self).oa_input,
            final(self).ab_input == old(self).ab_input,
    {
        let parsed = self.period_input.on_edit(text);
        match parsed {
            Some(v) => {
                if v >= 0 {
                    self.anim.set_period(v as u64);
                }
            },
            None => (),
        }
    }
}

} // verus!
