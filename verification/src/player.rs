//! A player: a position among the steps of a data set, and its animation.

use vstd::prelude::*;
use crate::data::{same_times, Data, Time};
use crate::state::{between_steps, clamped_time};
use crate::timeseries::{floor_index, floor_step, lemma_floor_unique};

verus! {

/// The position of a player in its data.
#[derive(Debug)]
pub struct PlayerState {
    pub data: Data,
    /// The number of steps of the data.
    pub n_steps: usize,
    /// The time of each step.
    pub times: Vec<Time>,
    /// The step at which the player stands.
    pub position: usize,
    /// When the animation last advanced, in milliseconds.
    pub last_update: u64,
}

/// The settings of a player's animation.
#[derive(Debug, Clone, Copy)]
pub struct PlayerSettingsModel {
    pub update_interval_ms: u64,
    pub step_size: usize,
}

/// A change of a player's settings.
#[derive(Debug, Clone, Copy)]
pub enum PlayerSettingsMsg {
    SetUpdateInterval(u64),
    SetStepSize(usize),
}

impl Default for PlayerSettingsModel {
    /// A step every tenth of a second.
    fn default() -> (settings: PlayerSettingsModel)
        ensures
            settings.update_interval_ms == 100,
            settings.step_size == 1,
    {
        PlayerSettingsModel { update_interval_ms: 100, step_size: 1 }
    }
}

impl PlayerSettingsModel {
    /// Takes a change over.
    pub fn update(&mut self, msg: PlayerSettingsMsg)
        ensures
            *final(self) == match msg {
                PlayerSettingsMsg::SetUpdateInterval(interval) => PlayerSettingsModel {
                    update_interval_ms: interval,
                    ..*old(self)
                },
                PlayerSettingsMsg::SetStepSize(step_size) => PlayerSettingsModel {
                    step_size,
                    ..*old(self)
                },
            },
    {
        match msg {
            PlayerSettingsMsg::SetUpdateInterval(interval) => {
                self.update_interval_ms = interval;
            },
            PlayerSettingsMsg::SetStepSize(step_size) => {
                self.step_size = step_size;
            },
        }
    }
}

/// What the controls of a player ask for.
#[derive(Debug, Clone, Copy)]
pub enum PlayerControlsMsg {
    Play,
    Pause,
    FirstStep,
    StepBackward,
    StepForward,
    LastStep,
}

/// The controls of a player.
#[derive(Debug, Clone, Copy)]
pub struct PlayerControlsModel {
    pub is_playing: bool,
}

impl PlayerControlsModel {
    /// Takes note of what was asked for, and hands it on: only to play and
    /// to pause change the controls themselves.
    pub fn update(&mut self, msg: PlayerControlsMsg) -> (forwarded: PlayerControlsMsg)
        ensures
            forwarded == msg,
            final(self).is_playing == match msg {
                PlayerControlsMsg::Play => true,
                PlayerControlsMsg::Pause => false,
                _ => old(self).is_playing,
            },
    {
        match msg {
            PlayerControlsMsg::Play => {
                self.is_playing = true;
            },
            PlayerControlsMsg::Pause => {
                self.is_playing = false;
            },
            _ => {},
        }
        msg
    }
}

impl PlayerState {
    /// Whether the player is well formed: its steps are those of its data,
    /// and it stands at one of them if there is one.
    pub open spec fn wf(&self) -> bool {
        &&& self.data.wf()
        &&& self.times@ == self.data.all_times@
        &&& self.n_steps == self.times.len()
        &&& self.n_steps > 0 ==> self.position < self.n_steps
    }

    /// Whether the player is well formed.
    pub fn check(&self) -> (r: bool)
        ensures
            r == self.wf(),
    {
        self.data.check() && same_times(&self.times, &self.data.all_times) && self.n_steps
            == self.times.len() && (self.n_steps == 0 || self.position < self.n_steps)
    }

    /// The player with only its position changed.
    pub open spec fn at(&self, position: usize) -> PlayerState {
        PlayerState { position, ..*self }
    }

    /// A player at the first step of the data, started at the time `now`.
    pub fn from_data(data: Data, now: u64) -> (player: PlayerState)
        requires
            data.wf(),
        ensures
            player.wf(),
            player.data == data,
            player.position == 0,
            player.last_update == now,
    {
        let times: Vec<Time> = data.times();
        let n_steps: usize = times.len();
        PlayerState { data, n_steps, times, position: 0, last_update: now }
    }

    /// The time of the step at which the player stands, or 0 without a step.
    pub fn time(&self) -> (t: Time)
        requires
            self.wf(),
        ensures
            t == if self.n_steps > 0 {
                self.times[self.position as int]
            } else {
                0
            },
    {
        if self.times.len() > 0 {
            self.times[self.position]
        } else {
            0
        }
    }

    /// The step that lies `steps` steps on from the player's, but not beyond
    /// the last.
    pub open spec fn forward(&self, steps: usize) -> usize
        recommends
            self.n_steps > 0,
    {
        if self.position + steps >= self.n_steps {
            (self.n_steps - 1) as usize
        } else {
            (self.position + steps) as usize
        }
    }

    /// The step that lies `steps` steps back from the player's, but not
    /// before the first.
    pub open spec fn backward(&self, steps: usize) -> usize {
        if steps >= self.position {
            0
        } else {
            (self.position - steps) as usize
        }
    }

    /// The player after a move forward; without a step it stays as it is.
    pub open spec fn after_forward(&self, steps: usize) -> PlayerState {
        if self.n_steps == 0 {
            *self
        } else {
            self.at(self.forward(steps))
        }
    }

    /// The player after a move backward; without a step it stays as it is.
    pub open spec fn after_backward(&self, steps: usize) -> PlayerState {
        if self.n_steps == 0 {
            *self
        } else {
            self.at(self.backward(steps))
        }
    }

    /// The player after a move to the last step; without a step it stays as
    /// it is.
    pub open spec fn after_last(&self) -> PlayerState {
        if self.n_steps == 0 {
            *self
        } else {
            self.at((self.n_steps - 1) as usize)
        }
    }

    /// The player after a turn of the animation at the time `now`: where the
    /// animation is due, it has moved forward by `step_size` steps, once, and
    /// takes note of the time.
    pub open spec fn after_animate(
        &self,
        update_interval_ms: u64,
        step_size: usize,
        now: u64,
    ) -> PlayerState {
        if self.due(update_interval_ms, now) {
            (PlayerState { last_update: now, ..*self }).after_forward(step_size)
        } else {
            *self
        }
    }

    /// Whether `post` is `pre` after a jump to the time: without a step it is
    /// as it was; otherwise it stands at the step nearest to the time, with
    /// an answer that `upper_is_nearer` can have given where it was asked.
    pub open spec fn jumped<F: Fn(Time, Time, Time) -> bool>(
        pre: &PlayerState,
        time: Time,
        upper_is_nearer: &F,
        post: &PlayerState,
    ) -> bool {
        if pre.n_steps == 0 {
            *post == *pre
        } else {
            exists|upper: bool| #[trigger]
                pre.answered(time, upper_is_nearer, upper) && *post == pre.at(
                    pre.nearest(time, upper) as usize,
                )
        }
    }

    /// Moves on by the given number of steps, but not beyond the last step.
    pub fn step_forward(&mut self, steps: usize)
        requires
            old(self).wf(),
        ensures
            final(self).wf(),
            *final(self) == old(self).after_forward(steps),
    {
        if self.n_steps == 0 {
            return ;
        }
        let mut new_position: usize = self.position.saturating_add(steps);
        if new_position >= self.n_steps {
            new_position = self.n_steps - 1;
        }
        self.position = new_position;
    }

    /// Moves back by the given number of steps, but not before the first
    /// step.
    pub fn step_backward(&mut self, steps: usize)
        requires
            old(self).wf(),
        ensures
            final(self).wf(),
            *final(self) == old(self).after_backward(steps),
    {
        if self.n_steps == 0 {
            return ;
        }
        self.position = self.position.saturating_sub(steps);
    }

    /// Moves to the first step.
    pub fn first_step(&mut self)
        requires
            old(self).wf(),
        ensures
            final(self).wf(),
            *final(self) == old(self).at(0),
    {
        self.position = 0;
    }

    /// Moves to the last step, if there is a step.
    pub fn last_step(&mut self)
        requires
            old(self).wf(),
        ensures
            final(self).wf(),
            *final(self) == old(self).after_last(),
    {
        if self.n_steps == 0 {
            return ;
        }
        self.position = self.n_steps - 1;
    }

    /// The step whose time is nearest to `time`: the latest step not after
    /// it, once it was moved into the span of the data, or the step after
    /// that where the time lies strictly between the two and
    /// `upper_is_nearer`.
    pub open spec fn nearest(&self, time: Time, upper_is_nearer: bool) -> int {
        let t = clamped_time(self.times@, time);
        let floor = floor_index(self.times@, t);
        if between_steps(self.times@, t, floor) && upper_is_nearer {
            floor + 1
        } else {
            floor
        }
    }

    /// Whether `upper` can be what `upper_is_nearer` has answered when it was
    /// asked about the time, if it had to be asked.
    pub open spec fn answered<F: Fn(Time, Time, Time) -> bool>(
        &self,
        time: Time,
        upper_is_nearer: &F,
        upper: bool,
    ) -> bool {
        let t = clamped_time(self.times@, time);
        let floor = floor_index(self.times@, t);
        between_steps(self.times@, t, floor) ==> upper_is_nearer.ensures(
            (self.times[floor], t, self.times[floor + 1]),
            upper,
        )
    }

    /// Moves to the step whose time is nearest to the given time. A time
    /// before the first step leads to the first, one after the last step to
    /// the last. Where the time lies strictly between two steps,
    /// `upper_is_nearer` is asked which is nearer: it is handed the time of
    /// the earlier step, the time, and the time of the later step, and says
    /// whether the later step is strictly the nearer one.
    pub fn jump_to_time<F: Fn(Time, Time, Time) -> bool>(&mut self, target_time: Time, upper_is_nearer: &F)
        requires
            old(self).wf(),
            forall|lo: Time, t: Time, hi: Time|
                lo < t < hi ==> #[trigger] upper_is_nearer.requires((lo, t, hi)),
        ensures
            final(self).wf(),
            PlayerState::jumped(old(self), target_time, upper_is_nearer, final(self)),
    {
        if self.times.len() == 0 {
            return ;
        }
        let mut t: Time = target_time;
        if t > self.times[self.n_steps - 1] {
            t = self.times[self.n_steps - 1];
        }
        if t < self.times[0] {
            t = self.times[0];
        }
        match floor_step(&self.times, t) {
            Some(floor) => {
                proof {
                    lemma_floor_unique(self.times@, t, floor as int, floor_index(self.times@, t));
                }
                let mut upper: bool = false;
                if floor + 1 < self.n_steps && self.times[floor] != t {
                    upper = upper_is_nearer(self.times[floor], t, self.times[floor + 1]);
                }
                let ghost before = *self;
                if floor + 1 < self.n_steps && self.times[floor] != t && upper {
                    self.position = floor + 1;
                } else {
                    self.position = floor;
                }
                proof {
                    assert(before.answered(target_time, upper_is_nearer, upper));
                    assert(*self == before.at(before.nearest(target_time, upper) as usize));
                }
            },
            None => {},
        }
    }

    /// Whether the animation is to advance at the time `now`: more than the
    /// interval has passed since it last did.
    pub open spec fn due(&self, update_interval_ms: u64, now: u64) -> bool {
        now - self.last_update > update_interval_ms
    }

    /// Advances the animation if it is due: by `step_size` steps, once,
    /// whatever time has passed.
    pub fn animate(&mut self, update_interval_ms: u64, step_size: usize, now: u64)
        requires
            old(self).wf(),
        ensures
            final(self).wf(),
            *final(self) == old(self).after_animate(update_interval_ms, step_size, now),
    {
        if now > self.last_update && now - self.last_update > update_interval_ms {
            self.last_update = now;
            self.step_forward(step_size);
        }
    }
}

/// What a player is asked to do.
#[derive(Debug)]
pub enum PlayerMsg {
    Ignore,
    NewData(Data),
    StepForward,
    StepBackward,
    FirstStep,
    LastStep,
    JumpToTime(Time),
    AnimationPing,
}

impl PlayerState {
    /// Whether `post` is what the message makes of `pre`, with the given
    /// settings, at the time `now`. New data puts a new player in the place
    /// of the old. The steps are as long as the settings say. The animation
    /// turns only while the controls say that it plays.
    pub open spec fn updated<F: Fn(Time, Time, Time) -> bool>(
        pre: &PlayerState,
        msg: PlayerMsg,
        settings: PlayerSettingsModel,
        is_playing: bool,
        now: u64,
        upper_is_nearer: &F,
        post: &PlayerState,
    ) -> bool {
        match msg {
            PlayerMsg::Ignore => *post == *pre,
            PlayerMsg::NewData(data) => {
                &&& post.data == data
                &&& post.times@ == data.all_times@
                &&& post.n_steps == data.all_times.len()
                &&& post.position == 0
                &&& post.last_update == now
            },
            PlayerMsg::StepForward => *post == pre.after_forward(settings.step_size),
            PlayerMsg::StepBackward => *post == pre.after_backward(settings.step_size),
            PlayerMsg::FirstStep => *post == pre.at(0),
            PlayerMsg::LastStep => *post == pre.after_last(),
            PlayerMsg::JumpToTime(time) => PlayerState::jumped(pre, time, upper_is_nearer, post),
            PlayerMsg::AnimationPing => *post == if is_playing {
                pre.after_animate(settings.update_interval_ms, settings.step_size, now)
            } else {
                *pre
            },
        }
    }

    /// Does what the message asks for.
    pub fn update<F: Fn(Time, Time, Time) -> bool>(
        &mut self,
        msg: PlayerMsg,
        settings: &PlayerSettingsModel,
        is_playing: bool,
        now: u64,
        upper_is_nearer: &F,
    )
        requires
            old(self).wf(),
            msg matches PlayerMsg::NewData(data) ==> data.wf(),
            forall|lo: Time, t: Time, hi: Time|
                lo < t < hi ==> #[trigger] upper_is_nearer.requires((lo, t, hi)),
        ensures
            final(self).wf(),
            PlayerState::updated(
                old(self),
                msg,
                *settings,
                is_playing,
                now,
                upper_is_nearer,
                final(self),
            ),
    {
        match msg {
            PlayerMsg::NewData(data) => {
                *self = PlayerState::from_data(data, now);
            },
            PlayerMsg::StepForward => {
                self.step_forward(settings.step_size);
            },
            PlayerMsg::StepBackward => {
                self.step_backward(settings.step_size);
            },
            PlayerMsg::FirstStep => {
                self.first_step();
            },
            PlayerMsg::LastStep => {
                self.last_step();
            },
            PlayerMsg::JumpToTime(time) => {
                self.jump_to_time(time, upper_is_nearer);
            },
            PlayerMsg::AnimationPing => {
                if is_playing {
                    self.animate(settings.update_interval_ms, settings.step_size, now);
                }
            },
            PlayerMsg::Ignore => {},
        }
    }
}

/// The ranges and scales of a picture, as they are entered.
#[derive(Debug, Clone, Copy)]
pub struct PlotSettingsModel {
    pub x_range_min: i64,
    pub x_range_max: i64,
    pub y_range_min: i64,
    pub y_range_max: i64,
    pub autoscale_x: bool,
    pub autoscale_y: bool,
    pub logscale_x: bool,
    pub logscale_y: bool,
}

/// A bound of a range that was entered.
#[derive(Debug, Clone, Copy)]
pub enum PlotSettingsInput {
    XRangeMinChanged(i64),
    XRangeMaxChanged(i64),
    YRangeMinChanged(i64),
    YRangeMaxChanged(i64),
}

/// What is told of a change of the settings.
#[derive(Debug, Clone, Copy)]
pub enum PlotSettingsOutput {
    PlotSettingsChanged(PlotSettingsModel),
}

impl PlotSettingsModel {
    /// The settings with the bound that was entered.
    pub open spec fn with(self, msg: PlotSettingsInput) -> PlotSettingsModel {
        match msg {
            PlotSettingsInput::XRangeMinChanged(v) => PlotSettingsModel { x_range_min: v, ..self },
            PlotSettingsInput::XRangeMaxChanged(v) => PlotSettingsModel { x_range_max: v, ..self },
            PlotSettingsInput::YRangeMinChanged(v) => PlotSettingsModel { y_range_min: v, ..self },
            PlotSettingsInput::YRangeMaxChanged(v) => PlotSettingsModel { y_range_max: v, ..self },
        }
    }

    /// Takes over a bound that was entered, and tells of the settings as
    /// they are then.
    pub fn update(&mut self, msg: PlotSettingsInput) -> (output: PlotSettingsOutput)
        ensures
            *final(self) == old(self).with(msg),
            output == PlotSettingsOutput::PlotSettingsChanged(*final(self)),
    {
        match msg {
            PlotSettingsInput::XRangeMinChanged(v) => {
                self.x_range_min = v;
            },
            PlotSettingsInput::XRangeMaxChanged(v) => {
                self.x_range_max = v;
            },
            PlotSettingsInput::YRangeMinChanged(v) => {
                self.y_range_min = v;
            },
            PlotSettingsInput::YRangeMaxChanged(v) => {
                self.y_range_max = v;
            },
        }
        PlotSettingsOutput::PlotSettingsChanged(*self)
    }
}

} // verus!
