use vstd::prelude::*;
use crate::device::{Device, copy_name};
use crate::catalog::{DeviceCatalog, eligible_positions, unique_indices};
use crate::selector::{
    Current, Direction, Selection, next_pos, persisted_present, prev_pos, step_pos,
};

verus! {

/// What the user asked to do with the current device.
#[derive(Clone, Copy, PartialEq, Eq, Debug)]
pub enum Action {
    Next,
    Prev,
    Mute,
    Inc,
    Dec,
}

/// One side effect on the audio server or on the remembered index.
#[derive(Debug, PartialEq, Eq)]
pub enum Effect {
    /// Make this device the server's default for its class.
    SetDefaultDevice { index: u32, name: Option<String> },
    /// Move every running stream of the class to this device, one by one.
    MoveStreams(u32),
    /// Remember this index for the next invocation.
    WriteIndex(u32),
    /// Set the mute switch of this device.
    SetMute { index: u32, mute: bool },
    /// Raise the volume of this device by one step.
    IncreaseVolume(u32),
    /// Lower the volume of this device by one step.
    DecreaseVolume(u32),
}

/// Moves the running application streams of one device class.
pub trait SetDefault {
    /// Moves every running stream to the device `index`. A stream that cannot
    /// be moved does not stop the others; the result counts those that could
    /// not be moved, or is an error where the streams could not be listed.
    fn set_default(&mut self, index: u32) -> Result<usize, String>;
}

/// Volume step of `Inc` and `Dec`, in percentage points.
pub const VOLUME_STEP_PERCENT: u32 = 5;

/// Making `d` the default: server default, streams, remembered index.
pub open spec fn switch_effects(d: Device) -> Seq<Effect> {
    seq![
        Effect::SetDefaultDevice { index: d.index, name: d.name },
        Effect::MoveStreams(d.index),
        Effect::WriteIndex(d.index),
    ]
}

/// What a non-cycling action does to device `d`.
pub open spec fn adjust_effects(d: Device, action: Action) -> Seq<Effect> {
    match action {
        Action::Mute => seq![Effect::SetMute { index: d.index, mute: !d.mute }],
        Action::Inc => seq![Effect::IncreaseVolume(d.index)],
        Action::Dec => seq![Effect::DecreaseVolume(d.index)],
        _ => seq![],
    }
}

pub open spec fn is_cycling(action: Action) -> bool {
    action == Action::Next || action == Action::Prev
}

pub open spec fn direction_of(action: Action) -> Direction {
    if action == Action::Prev {
        Direction::Backward
    } else {
        Direction::Forward
    }
}

/// The position of the device that carries the remembered index.
pub open spec fn persisted_pos(s: Seq<Device>, persisted: Option<u32>) -> int {
    choose|p: int| 0 <= p < s.len() && Some(s[p].index) == persisted
}

/// The effects of one invocation on catalog `s` with the remembered index
/// `persisted` and the requested action.
pub open spec fn planned(s: Seq<Device>, persisted: Option<u32>, action: Option<Action>) -> Seq<
    Effect,
> {
    let e = eligible_positions(s);
    if persisted_present(s, persisted) {
        let p = persisted_pos(s, persisted);
        match action {
            None => seq![],
            Some(a) => if is_cycling(a) {
                if e.len() >= 2 {
                    switch_effects(s[step_pos(s, p, direction_of(a))])
                } else {
                    seq![]
                }
            } else {
                adjust_effects(s[p], a)
            },
        }
    } else if e.len() == 0 {
        seq![]
    } else {
        let d = s[e[0]];
        match action {
            None => seq![Effect::WriteIndex(d.index)],
            Some(a) => if is_cycling(a) {
                switch_effects(d)
            } else {
                seq![Effect::WriteIndex(d.index)] + adjust_effects(d, a)
            },
        }
    }
}

pub open spec fn writes_index(effects: Seq<Effect>) -> bool {
    exists|k: int| 0 <= k < effects.len() && effects[k] is WriteIndex
}

fn switch_to(d: &Device, out: &mut Vec<Effect>)
    ensures
        final(out)@ == old(out)@ + switch_effects(*d),
{
    out.push(Effect::SetDefaultDevice { index: d.index, name: copy_name(&d.name) });
    out.push(Effect::MoveStreams(d.index));
    out.push(Effect::WriteIndex(d.index));
    assert(final(out)@ =~= old(out)@ + switch_effects(*d));
}

fn adjust(d: &Device, action: Action, out: &mut Vec<Effect>)
    ensures
        final(out)@ == old(out)@ + adjust_effects(*d, action),
{
    match action {
        Action::Mute => out.push(Effect::SetMute { index: d.index, mute: !d.mute }),
        Action::Inc => out.push(Effect::IncreaseVolume(d.index)),
        Action::Dec => out.push(Effect::DecreaseVolume(d.index)),
        _ => {},
    }
    assert(final(out)@ =~= old(out)@ + adjust_effects(*d, action));
}

impl DeviceCatalog {
    /// The effects of a cycling step from position `current`: none where fewer
    /// than two devices are eligible, else making the device reached the default.
    pub fn next_dev(&self, current: usize, dir: Direction) -> (r: Vec<Effect>)
        requires
            current < self@.len(),
        ensures
            r@ == if eligible_positions(self@).len() >= 2 {
                switch_effects(self@[step_pos(self@, current as int, dir)])
            } else {
                seq![]
            },
    {
        let mut out: Vec<Effect> = Vec::new();
        match self.cycle(current, dir) {
            Selection::Target(t) => switch_to(self.get(t), &mut out),
            _ => {},
        }
        assert(out@ =~= if eligible_positions(self@).len() >= 2 {
            switch_effects(self@[step_pos(self@, current as int, dir)])
        } else {
            seq![]
        });
        out
    }

    /// Decides every effect of one invocation: resolves the current device
    /// (remembering the fallback where nothing usable was remembered), then
    /// applies the action to it.
    pub fn plan(&self, persisted: Option<u32>, action: Option<Action>) -> (r: Vec<Effect>)
        requires
            self.wf(),
        ensures
            r@ == planned(self@, persisted, action),
    {
        let mut out: Vec<Effect> = Vec::new();
        match self.resolve_current(persisted) {
            Current::NoDevices => {
                assert(out@ =~= planned(self@, persisted, action));
            },
            Current::Persisted(p) => {
                proof {
                    let q = persisted_pos(self@, persisted);
                    assert(persisted_present(self@, persisted));
                    assert(q == p as int);
                }
                match action {
                    None => {},
                    Some(Action::Next) => {
                        out = self.next_dev(p, Direction::Forward);
                    },
                    Some(Action::Prev) => {
                        out = self.next_dev(p, Direction::Backward);
                    },
                    Some(a) => adjust(self.get(p), a, &mut out),
                }
                assert(out@ =~= planned(self@, persisted, action));
            },
            Current::Fallback(p) => {
                let d = self.get(p);
                match action {
                    Some(Action::Next) | Some(Action::Prev) => switch_to(d, &mut out),
                    None => out.push(Effect::WriteIndex(d.index)),
                    Some(a) => {
                        out.push(Effect::WriteIndex(d.index));
                        adjust(d, a, &mut out);
                    },
                }
                assert(out@ =~= planned(self@, persisted, action));
            },
        }
        out
    }
}

/// An empty catalog, whatever the remembered index and the action, yields no
/// effect at all: no default is set, no stream moved, nothing remembered.
pub proof fn lemma_empty_catalog_no_effects(persisted: Option<u32>, action: Option<Action>)
    ensures
        planned(Seq::<Device>::empty(), persisted, action) == Seq::<Effect>::empty(),
{
    let s = Seq::<Device>::empty();
    assert(eligible_positions(s) =~= Seq::<int>::empty());
    assert(planned(s, persisted, action) =~= Seq::<Effect>::empty());
}

/// Where the remembered index names a device and one device is eligible,
/// cycling in either direction changes nothing: no effect, no index written.
pub proof fn lemma_singleton_cycle_no_effects(
    s: Seq<Device>,
    persisted: Option<u32>,
    action: Action,
)
    requires
        unique_indices(s),
        persisted_present(s, persisted),
        eligible_positions(s).len() == 1,
        is_cycling(action),
    ensures
        planned(s, persisted, Some(action)) == Seq::<Effect>::empty(),
        !writes_index(planned(s, persisted, Some(action))),
{
    assert(planned(s, persisted, Some(action)) =~= Seq::<Effect>::empty());
}

/// Mute on a resolved device toggles its switch, as the only effect; the
/// remembered index stays as it is.
pub proof fn lemma_mute_only_toggles(s: Seq<Device>, persisted: Option<u32>)
    requires
        unique_indices(s),
        persisted_present(s, persisted),
    ensures
        planned(s, persisted, Some(Action::Mute)) == seq![
            Effect::SetMute {
                index: s[persisted_pos(s, persisted)].index,
                mute: !s[persisted_pos(s, persisted)].mute,
            },
        ],
        !writes_index(planned(s, persisted, Some(Action::Mute))),
{
    let d = s[persisted_pos(s, persisted)];
    assert(planned(s, persisted, Some(Action::Mute)) =~= seq![
        Effect::SetMute { index: d.index, mute: !d.mute },
    ]);
    let r = planned(s, persisted, Some(Action::Mute));
    assert(r.len() == 1 && !(r[0] is WriteIndex));
}

} // verus!
