//! The state of a viewer: which step of the data is shown, whether it plays,
//! and what the picture of it is made from.

use vstd::prelude::*;
use crate::data::{lines_view, same_lines, same_times, slice_lines, Data, DataSlice, Time};
use crate::plotting::{Axis, PlotRange, PlotSettings, Range};
use crate::viewport::{
    is_moved, plot_range_after_scroll, scroll_moves, AxisMove, Modifiers, ScrollDirection,
};
use crate::timeseries::{
    ascending, floor_index, floor_step, is_ascending, is_floor, lemma_floor_unique,
};

verus! {

/// Where the making of a picture stands.
#[derive(Debug)]
pub enum PlotStatus {
    /// No picture is being made.
    Idle,
    /// A picture is being made.
    Working,
    /// A picture was made: the image and the ranges it shows, or nothing
    /// where there was nothing to draw.
    Finished(Option<(String, (PlotRange, PlotRange))>),
}

/// The pointer over the picture. Positions are in image coordinates.
#[derive(Debug, Clone, Copy)]
pub struct MouseState {
    pub position: (i64, i64),
    pub last_position: (i64, i64),
    pub left_button_held: bool,
    pub middle_right_button_held: bool,
    pub drag_start: (i64, i64),
}

impl MouseState {
    /// The pointer at rest in the image's corner, no button held.
    pub fn new() -> (mouse: MouseState)
        ensures
            mouse.position == (0i64, 0i64),
            mouse.last_position == (0i64, 0i64),
            !mouse.left_button_held,
            !mouse.middle_right_button_held,
            mouse.drag_start == (0i64, 0i64),
    {
        MouseState {
            position: (0, 0),
            last_position: (0, 0),
            left_button_held: false,
            middle_right_button_held: false,
            drag_start: (0, 0),
        }
    }

    /// The pointer after a button went down at `position`: the first button
    /// starts a selection there, the second and the third a move of the
    /// picture, and any other button does nothing.
    pub open spec fn pressed(self, button: u32, position: (i64, i64)) -> MouseState {
        if button == 1 {
            MouseState { left_button_held: true, drag_start: position, ..self }
        } else if button == 2 || button == 3 {
            MouseState { middle_right_button_held: true, drag_start: position, ..self }
        } else {
            self
        }
    }

    /// The pointer after a button came up.
    pub open spec fn released(self, button: u32) -> MouseState {
        if button == 1 {
            MouseState { left_button_held: false, ..self }
        } else if button == 2 || button == 3 {
            MouseState { middle_right_button_held: false, ..self }
        } else {
            self
        }
    }

    /// The box that the release of a button at `position` selects: from where
    /// the first button went down to where it came up, unless that is the
    /// same place.
    pub open spec fn selection(self, button: u32, position: (i64, i64)) -> Option<
        ((i64, i64), (i64, i64)),
    > {
        if button == 1 && self.drag_start != position {
            Some((self.drag_start, position))
        } else {
            None
        }
    }
}

/// What a picture is to be made from: handed to whoever draws it.
#[derive(Debug)]
pub struct RenderRequest {
    pub slice: DataSlice,
    pub settings: PlotSettings,
    pub size: (u32, u32),
}

/// What the caller of `State::poll` is to do next.
#[derive(Debug)]
pub enum PollAction {
    /// Nothing.
    Nothing,
    /// Show the picture that the state now holds.
    Show,
    /// Have the picture drawn, and hand the result back as
    /// `PlotStatus::Finished`.
    Render(RenderRequest),
}

/// The state of a viewer.
#[derive(Debug)]
pub struct State {
    /// The step that is shown.
    pub current_step: usize,
    /// The time of the step that is shown.
    pub current_time: Time,
    /// The number of steps of the loaded data.
    pub n_steps: usize,
    /// The time of each step.
    pub times: Vec<Time>,
    /// The least time between two steps of the animation, in milliseconds.
    pub update_interval: i32,
    /// The number of steps that the animation advances at once.
    pub timestep_interval: usize,
    /// The loaded data.
    pub loaded_data: Option<Data>,
    /// What the data shows at the current time.
    pub current_slice: Option<DataSlice>,
    /// Whether the animation runs.
    pub is_playing: bool,
    /// When the animation last advanced, in milliseconds.
    pub last_step_made_at: u64,
    /// Whether the picture is out of date.
    pub update_needed: bool,
    /// What of a slice is drawn, and where.
    pub plot_settings: PlotSettings,
    /// The horizontal range of the picture that was last made.
    pub plot_range_x_actual: PlotRange,
    /// The vertical range of the picture that was last made.
    pub plot_range_y_actual: PlotRange,
    /// The width and the height of the picture.
    pub plot_area_size: (u32, u32),
    /// The picture that was last made.
    pub plot_image_string: Option<String>,
    /// The pointer over the picture.
    pub mouse_state: MouseState,
}

/// The step that a request for `step` leads to among `n_steps` steps: the
/// step itself, or the last one where there is no such step.
pub open spec fn clamped_step(step: usize, n_steps: usize) -> usize
    recommends
        n_steps > 0,
{
    if step >= n_steps {
        (n_steps - 1) as usize
    } else {
        step
    }
}

/// The time within the span of the ascending times that is nearest to `t`.
pub open spec fn clamped_time(times: Seq<Time>, t: Time) -> Time
    recommends
        times.len() > 0,
{
    if t < times[0] {
        times[0]
    } else if t > times[times.len() - 1] {
        times[times.len() - 1]
    } else {
        t
    }
}

/// Whether the step whose time is nearest to `t` is to be found by
/// comparing distances: `t` lies strictly between the times of step `floor`
/// and the step after it.
pub open spec fn between_steps(times: Seq<Time>, t: Time, floor: int) -> bool {
    floor + 1 < times.len() && times[floor] != t
}

impl State {
    /// Whether the state is well formed: the steps are those of the loaded
    /// data, and what is shown is what the data shows at the current step.
    pub open spec fn wf(&self) -> bool {
        &&& self.n_steps == self.times.len()
        &&& ascending(self.times@)
        &&& match self.loaded_data {
            Some(d) => d.wf() && self.times@ == d.all_times@,
            None => self.n_steps == 0,
        }
        &&& self.n_steps > 0 ==> self.shows_step(self.current_step)
        &&& self.current_slice matches Some(slice) ==> self.shows_slice(slice)
    }

    /// Whether the state is well formed.
    pub fn check(&self) -> (r: bool)
        ensures
            r == self.wf(),
    {
        if self.n_steps != self.times.len() || !is_ascending(&self.times) {
            return false;
        }
        if self.n_steps > 0 && (self.current_step >= self.n_steps || self.current_time
            != self.times[self.current_step]) {
            return false;
        }
        match &self.loaded_data {
            Some(d) => {
                if !d.check() || !same_times(&self.times, &d.all_times) {
                    return false;
                }
                match &self.current_slice {
                    Some(slice) => {
                        let shown: DataSlice = d.at_time(self.current_time);
                        slice.time == self.current_time && same_lines(
                            &slice.datalines,
                            &shown.datalines,
                        )
                    },
                    None => true,
                }
            },
            None => self.n_steps == 0 && self.current_slice.is_none(),
        }
    }

    /// Whether the state stands at the given step.
    pub open spec fn shows_step(&self, step: usize) -> bool {
        &&& step < self.times.len()
        &&& self.current_step == step
        &&& self.current_time == self.times[step as int]
    }

    /// Whether the slice is what the loaded data shows at the current time.
    pub open spec fn shows_slice(&self, slice: DataSlice) -> bool {
        &&& self.loaded_data matches Some(d)
        &&& slice.time == self.current_time
        &&& lines_view(slice.datalines@) == slice_lines(d.series@, self.current_time)
    }

    /// Whether there is a step to show.
    pub open spec fn has_steps(&self) -> bool {
        self.loaded_data is Some && self.n_steps > 0
    }

    /// Whether the two states have the same data loaded.
    pub open spec fn same_data(&self, other: &State) -> bool {
        &&& self.loaded_data == other.loaded_data
        &&& self.times == other.times
        &&& self.n_steps == other.n_steps
    }

    /// Whether the two states play alike.
    pub open spec fn same_playback(&self, other: &State) -> bool {
        &&& self.is_playing == other.is_playing
        &&& self.update_interval == other.update_interval
        &&& self.timestep_interval == other.timestep_interval
    }

    /// Whether the two states hold the same picture, made in the same way.
    pub open spec fn same_picture(&self, other: &State) -> bool {
        &&& self.plot_settings == other.plot_settings
        &&& self.plot_range_x_actual == other.plot_range_x_actual
        &&& self.plot_range_y_actual == other.plot_range_y_actual
        &&& self.plot_area_size == other.plot_area_size
        &&& self.plot_image_string == other.plot_image_string
        &&& self.mouse_state == other.mouse_state
    }

    /// Whether `post` is `pre` after a move to the given step: it stands at
    /// the step and shows what the data shows there, its picture is out of
    /// date, and nothing else has changed.
    pub open spec fn moved_to(pre: &State, step: usize, post: &State) -> bool {
        &&& post.shows_step(step)
        &&& post.current_slice matches Some(slice) && post.shows_slice(slice)
        &&& post.update_needed
        &&& post.same_data(pre)
        &&& post.same_playback(pre)
        &&& post.same_picture(pre)
    }

    /// Whether `post` and `ret` are what `go_to_step` makes of `pre`: with
    /// no step to show nothing changes and nothing is returned; otherwise the
    /// state moves to the step, or to the last step where the data has no
    /// such step, and the time of that step is returned.
    pub open spec fn stepped(pre: &State, step: usize, post: &State, ret: Option<Time>) -> bool {
        if pre.has_steps() {
            let target = clamped_step(step, pre.n_steps);
            &&& ret == Some(pre.times[target as int])
            &&& State::moved_to(pre, target, post)
            &&& post.last_step_made_at == pre.last_step_made_at
        } else {
            ret is None && *post == *pre
        }
    }

    /// The step whose time is nearest to `time`, once the time was moved into
    /// the span of the data: the latest step not after it or, where the time
    /// lies strictly between two steps and `upper_is_nearer`, the step after
    /// that.
    pub open spec fn nearest_step(times: Seq<Time>, time: Time, upper_is_nearer: bool) -> int {
        let t = clamped_time(times, time);
        let floor = floor_index(times, t);
        if between_steps(times, t, floor) && upper_is_nearer {
            floor + 1
        } else {
            floor
        }
    }

    /// Whether `post` and `ret` are what a jump to the time makes of `pre`:
    /// a move to the step nearest to the time.
    pub open spec fn jumped(
        pre: &State,
        time: Time,
        upper_is_nearer: bool,
        post: &State,
        ret: Option<Time>,
    ) -> bool {
        State::stepped(
            pre,
            State::nearest_step(pre.times@, time, upper_is_nearer) as usize,
            post,
            ret,
        )
    }

    /// Whether `upper` can be what `upper_is_nearer` has answered when it was
    /// asked about the time, if it had to be asked.
    pub open spec fn answered<F: Fn(Time, Time, Time) -> bool>(
        pre: &State,
        time: Time,
        upper_is_nearer: &F,
        upper: bool,
    ) -> bool {
        let t = clamped_time(pre.times@, time);
        let floor = floor_index(pre.times@, t);
        between_steps(pre.times@, t, floor) ==> upper_is_nearer.ensures(
            (pre.times[floor], t, pre.times[floor + 1]),
            upper,
        )
    }

    /// The state of a viewer that was started at the time `now`: nothing is
    /// loaded, nothing plays, and the first picture is still to be made.
    pub fn new(now: u64) -> (state: State)
        ensures
            state.wf(),
            state.current_step == 0,
            state.current_time == 0,
            state.n_steps == 0,
            state.update_interval == 100,
            state.timestep_interval == 1,
            state.loaded_data is None,
            state.current_slice is None,
            !state.is_playing,
            state.last_step_made_at == now,
            state.update_needed,
            state.plot_settings.plot_range_x is Auto,
            state.plot_settings.plot_range_y is Auto,
            state.plot_range_x_actual is Auto,
            state.plot_range_y_actual is Auto,
            state.plot_area_size == (600u32, 400u32),
            state.plot_image_string is None,
    {
        State {
            current_step: 0,
            current_time: 0,
            n_steps: 0,
            times: Vec::new(),
            update_interval: 100,
            timestep_interval: 1,
            loaded_data: None,
            current_slice: None,
            is_playing: false,
            last_step_made_at: now,
            update_needed: true,
            plot_settings: PlotSettings::new(),
            plot_range_x_actual: PlotRange::Auto,
            plot_range_y_actual: PlotRange::Auto,
            plot_area_size: (600, 400),
            plot_image_string: None,
            mouse_state: MouseState::new(),
        }
    }

    /// Loads a data set in place of the one that was loaded: the state
    /// stands at the first step, the animation rests, and a picture is due.
    /// A data set without a step leaves the state without a step to show.
    pub fn load_data(&mut self, data: Data)
        requires
            data.wf(),
        ensures
            final(self).wf(),
            final(self).loaded_data == Some(data),
            final(self).times@ == data.all_times@,
            final(self).current_step == 0,
            final(self).current_time == if data.all_times.len() > 0 {
                data.all_times[0]
            } else {
                0
            },
            final(self).current_slice matches Some(slice) && final(self).shows_slice(slice),
            !final(self).is_playing,
            final(self).update_needed,
            final(self).update_interval == old(self).update_interval,
            final(self).timestep_interval == old(self).timestep_interval,
            final(self).last_step_made_at == old(self).last_step_made_at,
            final(self).same_picture(old(self)),
    {
        let times: Vec<Time> = data.times();
        let current_time: Time = if times.len() > 0 {
            times[0]
        } else {
            0
        };
        self.n_steps = times.len();
        self.times = times;
        self.current_step = 0;
        self.current_time = current_time;
        self.current_slice = Some(data.at_time(current_time));
        self.loaded_data = Some(data);
        self.is_playing = false;
        self.update_needed = true;
    }

    /// Moves to a step, or to the last step where the data has no such step,
    /// and returns the time of the step. Without a step to show nothing
    /// happens and nothing is returned.
    pub fn go_to_step(&mut self, step: usize) -> (ret: Option<Time>)
        requires
            old(self).wf(),
        ensures
            final(self).wf(),
            State::stepped(old(self), step, final(self), ret),
    {
        if self.n_steps == 0 {
            return None;
        }
        match &self.loaded_data {
            Some(d) => {
                let mut target_step: usize = step;
                if target_step >= self.n_steps {
                    target_step = self.n_steps - 1;
                }
                let target_time: Time = self.times[target_step];
                let slice: DataSlice = d.at_time(target_time);
                self.current_step = target_step;
                self.current_slice = Some(slice);
                self.current_time = target_time;
                self.update_needed = true;
                Some(target_time)
            },
            None => None,
        }
    }

    /// Moves to the first step.
    pub fn go_to_first_step(&mut self) -> (ret: Option<Time>)
        requires
            old(self).wf(),
        ensures
            final(self).wf(),
            State::stepped(old(self), 0, final(self), ret),
    {
        self.go_to_step(0)
    }

    /// Moves one step back, unless the state stands at the first step.
    pub fn go_to_previous_step(&mut self) -> (ret: Option<Time>)
        requires
            old(self).wf(),
        ensures
            final(self).wf(),
            State::stepped(
                old(self),
                if old(self).current_step > 0 {
                    (old(self).current_step - 1) as usize
                } else {
                    0
                },
                final(self),
                ret,
            ),
    {
        let target_step: usize = if self.current_step > 0 {
            self.current_step - 1
        } else {
            0
        };
        self.go_to_step(target_step)
    }

    /// Moves one step on, unless the state stands at the last step.
    pub fn go_to_next_step(&mut self) -> (ret: Option<Time>)
        requires
            old(self).wf(),
        ensures
            final(self).wf(),
            State::stepped(
                old(self),
                if old(self).current_step < usize::MAX {
                    (old(self).current_step + 1) as usize
                } else {
                    usize::MAX
                },
                final(self),
                ret,
            ),
    {
        let step: usize = if self.current_step < usize::MAX {
            self.current_step + 1
        } else {
            usize::MAX
        };
        self.go_to_step(step)
    }

    /// Moves to the last step.
    pub fn go_to_last_step(&mut self) -> (ret: Option<Time>)
        requires
            old(self).wf(),
        ensures
            final(self).wf(),
            State::stepped(old(self), usize::MAX, final(self), ret),
    {
        let target_step: usize = if self.n_steps > 0 {
            self.n_steps - 1
        } else {
            0
        };
        self.go_to_step(target_step)
    }

    /// The latest step that is not after the given time, once the time was
    /// moved into the span of the data; with it, whether the time lies
    /// strictly between that step and the next, and the times of the two.
    /// Without a step to show there is none.
    pub fn step_before(&self, time: Time) -> (r: Option<(usize, Option<(Time, Time, Time)>)>)
        requires
            self.wf(),
        ensures
            r is Some <==> self.has_steps(),
            r matches Some((floor, ask)) ==> {
                let t = clamped_time(self.times@, time);
                &&& is_floor(self.times@, t, floor as int)
                &&& floor == floor_index(self.times@, t)
                &&& ask is Some <==> between_steps(self.times@, t, floor as int)
                &&& ask matches Some(q) ==> q == (
                    self.times[floor as int],
                    t,
                    self.times[floor + 1],
                )
            },
    {
        if self.n_steps == 0 || self.loaded_data.is_none() {
            return None;
        }
        let mut target_time: Time = time;
        if target_time < self.times[0] {
            target_time = self.times[0];
        }
        if target_time > self.times[self.n_steps - 1] {
            target_time = self.times[self.n_steps - 1];
        }
        match floor_step(&self.times, target_time) {
            Some(floor) => {
                proof {
                    lemma_floor_unique(
                        self.times@,
                        target_time,
                        floor as int,
                        floor_index(self.times@, target_time),
                    );
                }
                if floor + 1 < self.n_steps && self.times[floor] != target_time {
                    Some((floor, Some((self.times[floor], target_time, self.times[floor + 1]))))
                } else {
                    Some((floor, None))
                }
            },
            None => None,
        }
    }

    /// Moves to the step whose time is nearest to the given time, and
    /// returns the time of that step. A time outside the span of the data
    /// counts as the nearest end of the span. Where the time lies strictly
    /// between two steps, the later one is taken if `upper_is_nearer`, the
    /// earlier one otherwise. Without a step to show nothing happens and
    /// nothing is returned.
    pub fn jump_to_nearest(&mut self, time: Time, upper_is_nearer: bool) -> (ret: Option<Time>)
        requires
            old(self).wf(),
        ensures
            final(self).wf(),
            old(self).has_steps() ==> State::jumped(
                old(self),
                time,
                upper_is_nearer,
                final(self),
                ret,
            ),
            !old(self).has_steps() ==> ret is None && *final(self) == *old(self),
    {
        match self.step_before(time) {
            Some((floor, ask)) => {
                let target: usize = if ask.is_some() && upper_is_nearer {
                    floor + 1
                } else {
                    floor
                };
                self.go_to_step(target)
            },
            None => None,
        }
    }

    /// Moves to the step whose time is nearest to the given time, as
    /// `jump_to_nearest` does. Where the time lies strictly between two
    /// steps, `upper_is_nearer` is asked which is nearer: it is handed the
    /// time of the earlier step, the time, and the time of the later step,
    /// and says whether the later step is strictly the nearer one.
    pub fn jump_to_time<F: Fn(Time, Time, Time) -> bool>(&mut self, time: Time, upper_is_nearer: &F) -> (ret:
        Option<Time>)
        requires
            old(self).wf(),
            forall|lo: Time, t: Time, hi: Time| lo < t < hi ==> #[trigger] upper_is_nearer.requires((lo, t, hi)),
        ensures
            final(self).wf(),
            old(self).has_steps() ==> exists|upper: bool| #[trigger]
                State::answered(old(self), time, upper_is_nearer, upper) && State::jumped(
                    old(self),
                    time,
                    upper,
                    final(self),
                    ret,
                ),
            !old(self).has_steps() ==> ret is None && *final(self) == *old(self),
    {
        match self.step_before(time) {
            Some((floor, ask)) => {
                let upper: bool = match ask {
                    Some((lo, t, hi)) => upper_is_nearer(lo, t, hi),
                    None => false,
                };
                let ret = self.jump_to_nearest(time, upper);
                proof {
                    assert(State::answered(old(self), time, upper_is_nearer, upper));
                }
                ret
            },
            None => None,
        }
    }

    /// The step that the animation advances to from the current one: on by
    /// `timestep_interval` steps, but not beyond the last step.
    pub open spec fn next_frame(&self) -> usize
        recommends
            self.n_steps > 0,
    {
        if self.current_step + self.timestep_interval >= self.n_steps {
            (self.n_steps - 1) as usize
        } else {
            (self.current_step + self.timestep_interval) as usize
        }
    }

    /// Whether the animation is to advance at the time `now`: it plays,
    /// there is a step to show, and more than `update_interval` milliseconds
    /// have passed since it last advanced.
    pub open spec fn frame_due(&self, now: u64) -> bool {
        &&& self.is_playing
        &&& self.has_steps()
        &&& self.update_interval >= 0
        &&& now - self.last_step_made_at > self.update_interval
    }

    /// Whether `post` is what `advance_animation` makes of `pre` at `now`.
    pub open spec fn advanced(pre: &State, now: u64, post: &State) -> bool {
        if pre.frame_due(now) {
            State::moved_to(pre, pre.next_frame(), post) && post.last_step_made_at == now
        } else {
            *post == *pre
        }
    }

    /// Advances the animation if it is due: by `timestep_interval` steps, but
    /// not beyond the last step, whatever time has passed. The last step is
    /// shown again each time the animation is due: it does not stop there.
    pub fn advance_animation(&mut self, now: u64)
        requires
            old(self).wf(),
        ensures
            final(self).wf(),
            State::advanced(old(self), now, final(self)),
    {
        if !self.is_playing || self.n_steps == 0 || self.loaded_data.is_none()
            || self.update_interval < 0 {
            return ;
        }
        if now <= self.last_step_made_at {
            return ;
        }
        let elapsed: u64 = now - self.last_step_made_at;
        if elapsed > self.update_interval as u64 {
            let last: usize = self.n_steps - 1;
            let target_step: usize = if self.timestep_interval >= self.n_steps
                || self.current_step >= self.n_steps - self.timestep_interval {
                last
            } else {
                self.current_step + self.timestep_interval
            };
            self.go_to_step(target_step);
            self.last_step_made_at = now;
        }
    }

    /// What the next picture is to be made from: the slice that is shown, the
    /// settings and the size of the picture, each as it is now. Without
    /// loaded data there is nothing to make a picture from.
    pub fn request_plot(&self) -> (r: Option<RenderRequest>)
        requires
            self.wf(),
        ensures
            r is Some <==> self.loaded_data is Some,
            r matches Some(request) ==> self.is_request(request),
    {
        match &self.loaded_data {
            Some(d) => {
                let slice: DataSlice = match &self.current_slice {
                    Some(s) => s.copy(),
                    None => d.at_time(self.current_time),
                };
                Some(RenderRequest { slice, settings: self.plot_settings, size: self.plot_area_size })
            },
            None => None,
        }
    }

    /// Whether the request asks for the picture of what the state shows.
    pub open spec fn is_request(&self, request: RenderRequest) -> bool {
        &&& self.shows_slice(request.slice)
        &&& request.settings == self.plot_settings
        &&& request.size == self.plot_area_size
    }

    /// Whether `post`, `next` and `action` are what `poll` makes of `pre` and
    /// `status` at the time `now`.
    ///
    /// While a picture is being made nothing changes. A picture that was made
    /// is taken over with the ranges it shows; whether another is due is left
    /// as it is, so that what has changed in the meantime is drawn next.
    /// Otherwise the animation advances if it is due; if a picture is then
    /// due and data is loaded, the picture is asked for and with that no
    /// longer due.
    pub open spec fn polled(
        pre: &State,
        status: PlotStatus,
        now: u64,
        post: &State,
        next: PlotStatus,
        action: PollAction,
    ) -> bool {
        match status {
            PlotStatus::Working => *post == *pre && next is Working && action is Nothing,
            PlotStatus::Finished(None) => *post == *pre && next is Idle && action is Nothing,
            PlotStatus::Finished(Some((image, (x_range, y_range)))) => {
                &&& *post == State {
                    plot_image_string: Some(image),
                    plot_range_x_actual: x_range,
                    plot_range_y_actual: y_range,
                    ..*pre
                }
                &&& next is Idle
                &&& action is Show
            },
            PlotStatus::Idle => {
                ||| {
                    &&& action matches PollAction::Render(request)
                    &&& next is Working
                    &&& State::advanced(pre, now, &State { update_needed: true, ..*post })
                    &&& post.loaded_data is Some
                    &&& !post.update_needed
                    &&& post.is_request(request)
                }
                ||| {
                    &&& action is Nothing
                    &&& next is Idle
                    &&& State::advanced(pre, now, post)
                    &&& !(post.update_needed && post.loaded_data is Some)
                }
            },
        }
    }

    /// One turn of the viewer's loop. It is handed where the making of the
    /// picture stands, and returns where it stands after the turn and what
    /// the caller is to do.
    ///
    /// While a picture is being made nothing happens. A picture that was made
    /// is taken over, with the ranges it shows, and is to be shown; where
    /// there was nothing to draw the picture stays as it is. Otherwise the
    /// animation advances if it is due, and if the picture is out of date and
    /// data is loaded a new picture is asked for. The picture counts as up to
    /// date from the moment it is asked for: whatever changes while it is
    /// made makes another one due, which is asked for once this one has
    /// arrived. So a picture is asked for only while none is being made.
    pub fn poll(&mut self, status: PlotStatus, now: u64) -> (r: (PlotStatus, PollAction))
        requires
            old(self).wf(),
        ensures
            final(self).wf(),
            State::polled(old(self), status, now, final(self), r.0, r.1),
    {
        match status {
            PlotStatus::Working => (PlotStatus::Working, PollAction::Nothing),
            PlotStatus::Finished(None) => (PlotStatus::Idle, PollAction::Nothing),
            PlotStatus::Finished(Some((image, (x_range, y_range)))) => {
                self.plot_image_string = Some(image);
                self.plot_range_x_actual = x_range;
                self.plot_range_y_actual = y_range;
                (PlotStatus::Idle, PollAction::Show)
            },
            PlotStatus::Idle => {
                self.advance_animation(now);
                if self.update_needed {
                    let ghost due = *self;
                    match self.request_plot() {
                        Some(request) => {
                            self.update_needed = false;
                            proof {
                                assert(due == State { update_needed: true, ..*self });
                            }
                            (PlotStatus::Working, PollAction::Render(request))
                        },
                        None => (PlotStatus::Idle, PollAction::Nothing),
                    }
                } else {
                    (PlotStatus::Idle, PollAction::Nothing)
                }
            },
        }
    }

    /// Starts or stops the animation. Without loaded data nothing happens.
    pub fn set_playing(&mut self, playing: bool)
        ensures
            *final(self) == if old(self).loaded_data is Some {
                State { is_playing: playing, ..*old(self) }
            } else {
                *old(self)
            },
    {
        if self.loaded_data.is_some() {
            self.is_playing = playing;
        }
    }

    /// Starts the animation if it rests, and stops it if it runs. Without
    /// loaded data nothing happens. Returns whether the animation now runs.
    pub fn toggle_playing(&mut self) -> (playing: bool)
        ensures
            *final(self) == if old(self).loaded_data is Some {
                State { is_playing: !old(self).is_playing, ..*old(self) }
            } else {
                *old(self)
            },
            playing == final(self).is_playing,
    {
        if self.loaded_data.is_some() {
            self.is_playing = !self.is_playing;
        }
        self.is_playing
    }

    /// Sets the least time between two steps of the animation.
    pub fn set_update_interval(&mut self, milliseconds: i32)
        ensures
            *final(self) == (State { update_interval: milliseconds, ..*old(self) }),
    {
        self.update_interval = milliseconds;
    }

    /// Sets the number of steps that the animation advances at once.
    pub fn set_timestep_interval(&mut self, steps: usize)
        ensures
            *final(self) == (State { timestep_interval: steps, ..*old(self) }),
    {
        self.timestep_interval = steps;
    }

    /// The settings with the range of one axis replaced.
    pub open spec fn with_range(settings: PlotSettings, axis: Axis, range: PlotRange) -> PlotSettings {
        match axis {
            Axis::X => PlotSettings { plot_range_x: range, ..settings },
            Axis::Y => PlotSettings { plot_range_y: range, ..settings },
        }
    }

    /// The range of the axis in the picture that was last made.
    pub open spec fn actual_range(&self, axis: Axis) -> PlotRange {
        match axis {
            Axis::X => self.plot_range_x_actual,
            Axis::Y => self.plot_range_y_actual,
        }
    }

    /// Fixes the range of an axis: the range is no longer taken from the
    /// data, and a picture is due.
    pub fn set_plot_range(&mut self, axis: Axis, range: (i64, i64))
        ensures
            *final(self) == (State {
                plot_settings: State::with_range(
                    old(self).plot_settings,
                    axis,
                    PlotRange::Fixed(range),
                ),
                update_needed: true,
                ..*old(self)
            }),
    {
        match axis {
            Axis::X => {
                self.plot_settings.plot_range_x = PlotRange::Fixed(range);
            },
            Axis::Y => {
                self.plot_settings.plot_range_y = PlotRange::Fixed(range);
            },
        }
        self.update_needed = true;
    }

    /// Has the range of an axis taken from the data, and a picture made; or,
    /// with `auto` false, holds the axis to the range that the last picture
    /// shows.
    pub fn set_autoscale(&mut self, axis: Axis, auto: bool)
        ensures
            *final(self) == if auto {
                State {
                    plot_settings: State::with_range(
                        old(self).plot_settings,
                        axis,
                        PlotRange::Auto,
                    ),
                    update_needed: true,
                    ..*old(self)
                }
            } else {
                State {
                    plot_settings: State::with_range(
                        old(self).plot_settings,
                        axis,
                        old(self).actual_range(axis),
                    ),
                    ..*old(self)
                }
            },
    {
        let range: PlotRange = if auto {
            PlotRange::Auto
        } else {
            match axis {
                Axis::X => self.plot_range_x_actual,
                Axis::Y => self.plot_range_y_actual,
            }
        };
        match axis {
            Axis::X => {
                self.plot_settings.plot_range_x = range;
            },
            Axis::Y => {
                self.plot_settings.plot_range_y = range;
            },
        }
        if auto {
            self.update_needed = true;
        }
    }

    /// Makes an axis logarithmic or linear; a picture is due.
    pub fn set_logscale(&mut self, axis: Axis, logscale: bool)
        ensures
            *final(self) == (State {
                plot_settings: match axis {
                    Axis::X => PlotSettings { use_logscale_x: logscale, ..old(self).plot_settings },
                    Axis::Y => PlotSettings { use_logscale_y: logscale, ..old(self).plot_settings },
                },
                update_needed: true,
                ..*old(self)
            }),
    {
        match axis {
            Axis::X => {
                self.plot_settings.use_logscale_x = logscale;
            },
            Axis::Y => {
                self.plot_settings.use_logscale_y = logscale;
            },
        }
        self.update_needed = true;
    }

    /// Says what of a polyline is drawn, and whether in colour; a picture is
    /// due.
    pub fn set_style(&mut self, draw_lines: bool, draw_points: bool, use_color: bool)
        ensures
            *final(self) == (State {
                plot_settings: PlotSettings {
                    draw_lines,
                    draw_points,
                    use_color,
                    ..old(self).plot_settings
                },
                update_needed: true,
                ..*old(self)
            }),
    {
        self.plot_settings.draw_lines = draw_lines;
        self.plot_settings.draw_points = draw_points;
        self.plot_settings.use_color = use_color;
        self.update_needed = true;
    }

    /// Sets the size of the picture. Only a new size makes a picture due.
    pub fn set_plot_area_size(&mut self, size: (u32, u32))
        ensures
            *final(self) == if size == old(self).plot_area_size {
                *old(self)
            } else {
                State { plot_area_size: size, update_needed: true, ..*old(self) }
            },
    {
        if size.0 != self.plot_area_size.0 || size.1 != self.plot_area_size.1 {
            self.plot_area_size = size;
            self.update_needed = true;
        }
    }

    /// Takes note that a button went down over the picture.
    pub fn button_press(&mut self, button: u32, position: (i64, i64))
        ensures
            *final(self) == (State {
                mouse_state: old(self).mouse_state.pressed(button, position),
                ..*old(self)
            }),
    {
        if button == 1 {
            self.mouse_state.left_button_held = true;
            self.mouse_state.drag_start = position;
        } else if button == 2 || button == 3 {
            self.mouse_state.middle_right_button_held = true;
            self.mouse_state.drag_start = position;
        }
    }

    /// Takes note that a button came up over the picture, and returns the box
    /// that was selected with it, if one was: its two corners in the image.
    pub fn button_release(&mut self, button: u32, position: (i64, i64)) -> (selection: Option<
        ((i64, i64), (i64, i64)),
    >)
        ensures
            *final(self) == (State {
                mouse_state: old(self).mouse_state.released(button),
                ..*old(self)
            }),
            selection == old(self).mouse_state.selection(button, position),
    {
        if button == 1 {
            self.mouse_state.left_button_held = false;
            let start: (i64, i64) = self.mouse_state.drag_start;
            if start.0 != position.0 || start.1 != position.1 {
                return Some((start, position));
            }
        } else if button == 2 || button == 3 {
            self.mouse_state.middle_right_button_held = false;
        }
        None
    }

    /// Takes note that the pointer moved, and returns the stretch by which
    /// the picture is to be moved with it, if it is: from where the pointer
    /// was to where it is, while the second or the third button is held.
    pub fn pointer_motion(&mut self, position: (i64, i64)) -> (pan: Option<
        ((i64, i64), (i64, i64)),
    >)
        ensures
            *final(self) == (State {
                mouse_state: MouseState {
                    position,
                    last_position: position,
                    ..old(self).mouse_state
                },
                ..*old(self)
            }),
            pan == if old(self).mouse_state.middle_right_button_held {
                Some((old(self).mouse_state.last_position, position))
            } else {
                None
            },
    {
        let pan = if self.mouse_state.middle_right_button_held {
            Some((self.mouse_state.last_position, position))
        } else {
            None
        };
        self.mouse_state.position = position;
        self.mouse_state.last_position = position;
        pan
    }

    /// Sets both ranges at once, as a selection or a move of the picture
    /// does; a picture is due.
    pub fn set_plot_ranges(&mut self, x_range: PlotRange, y_range: PlotRange)
        ensures
            *final(self) == (State {
                plot_settings: PlotSettings {
                    plot_range_x: x_range,
                    plot_range_y: y_range,
                    ..old(self).plot_settings
                },
                update_needed: true,
                ..*old(self)
            }),
    {
        self.plot_settings.plot_range_x = x_range;
        self.plot_settings.plot_range_y = y_range;
        self.update_needed = true;
    }

    /// The bound that was entered for a range, or the bound that the range
    /// has where nothing readable was entered.
    pub open spec fn entered(text: Option<i64>, shown: i64) -> i64 {
        match text {
            Some(v) => v,
            None => shown,
        }
    }

    /// Fixes both ranges to the bounds that were entered. A bound that could
    /// not be read stays as the last picture shows it. A picture is due.
    pub fn update_ranges(
        &mut self,
        shown_x: Range,
        shown_y: Range,
        x_min: Option<i64>,
        x_max: Option<i64>,
        y_min: Option<i64>,
        y_max: Option<i64>,
    )
        ensures
            *final(self) == (State {
                plot_settings: PlotSettings {
                    plot_range_x: PlotRange::Fixed(
                        (State::entered(x_min, shown_x.0), State::entered(x_max, shown_x.1)),
                    ),
                    plot_range_y: PlotRange::Fixed(
                        (State::entered(y_min, shown_y.0), State::entered(y_max, shown_y.1)),
                    ),
                    ..old(self).plot_settings
                },
                update_needed: true,
                ..*old(self)
            }),
    {
        let x0: i64 = match x_min { Some(v) => v, None => shown_x.0 };
        let x1: i64 = match x_max { Some(v) => v, None => shown_x.1 };
        let y0: i64 = match y_min { Some(v) => v, None => shown_y.0 };
        let y1: i64 = match y_max { Some(v) => v, None => shown_y.1 };
        self.set_plot_ranges(PlotRange::Fixed((x0, x1)), PlotRange::Fixed((y0, y1)));
    }

    /// Turns the wheel over the picture, with the pointer at `pointer` in the
    /// plane of the data: each range is moved as `scroll_moves` says, and a
    /// picture is due.
    pub fn scroll<F: Fn(AxisMove, Range, i64) -> Range>(
        &mut self,
        keys: Modifiers,
        direction: ScrollDirection,
        pointer: (i64, i64),
        apply: &F,
    )
        requires
            forall|m: AxisMove, r: Range, p: i64| #[trigger] apply.requires((m, r, p)),
        ensures
            is_moved(
                apply,
                scroll_moves(keys, direction).0,
                old(self).plot_settings.plot_range_x,
                old(self).plot_range_x_actual,
                pointer.0,
                final(self).plot_settings.plot_range_x,
            ),
            is_moved(
                apply,
                scroll_moves(keys, direction).1,
                old(self).plot_settings.plot_range_y,
                old(self).plot_range_y_actual,
                pointer.1,
                final(self).plot_settings.plot_range_y,
            ),
            *final(self) == (State {
                plot_settings: PlotSettings {
                    plot_range_x: final(self).plot_settings.plot_range_x,
                    plot_range_y: final(self).plot_settings.plot_range_y,
                    ..old(self).plot_settings
                },
                update_needed: true,
                ..*old(self)
            }),
    {
        let ranges: (PlotRange, PlotRange) = plot_range_after_scroll(
            (self.plot_settings.plot_range_x, self.plot_settings.plot_range_y),
            (self.plot_range_x_actual, self.plot_range_y_actual),
            keys,
            direction,
            pointer,
            apply,
        );
        self.set_plot_ranges(ranges.0, ranges.1);
    }
}

/// Going to a step a second time changes nothing more: the state stands at
/// the same step, shows the same slice, and returns the same time.
pub proof fn lemma_go_to_step_idempotent(
    s0: State,
    s1: State,
    s2: State,
    step: usize,
    r1: Option<Time>,
    r2: Option<Time>,
)
    requires
        s0.wf(),
        State::stepped(&s0, step, &s1, r1),
        State::stepped(&s1, step, &s2, r2),
    ensures
        r2 == r1,
        s2.current_step == s1.current_step,
        s2.current_time == s1.current_time,
        s0.has_steps() ==> s1.current_slice is Some && s2.current_slice is Some && s2.current_slice->0.time
            == s1.current_slice->0.time && lines_view(s2.current_slice->0.datalines@) == lines_view(
            s1.current_slice->0.datalines@,
        ),
        !s0.has_steps() ==> s2 == s1,
        s2.same_data(&s1),
        s2.same_playback(&s1),
        s2.same_picture(&s1),
        s2.update_needed == s1.update_needed,
{
}

/// A picture is asked for only while none is being made, and the making is
/// then under way: so at most one picture is made at a time.
pub proof fn lemma_one_picture_at_a_time(
    pre: State,
    status: PlotStatus,
    now: u64,
    post: State,
    next: PlotStatus,
    action: PollAction,
)
    requires
        State::polled(&pre, status, now, &post, next, action),
    ensures
        action is Render ==> status is Idle && next is Working,
        status is Working ==> next is Working && post == pre,
{
}

/// What changes while a picture is being made is drawn: a picture that
/// arrives leaves it as it is whether another one is due, and the turn after
/// it asks for the one that is due.
pub proof fn lemma_change_is_drawn(
    s0: State,
    made: Option<(String, (PlotRange, PlotRange))>,
    now1: u64,
    s1: State,
    next1: PlotStatus,
    action1: PollAction,
    now2: u64,
    s2: State,
    next2: PlotStatus,
    action2: PollAction,
)
    requires
        s0.wf(),
        State::polled(&s0, PlotStatus::Finished(made), now1, &s1, next1, action1),
        State::polled(&s1, PlotStatus::Idle, now2, &s2, next2, action2),
    ensures
        s1.update_needed == s0.update_needed,
        next1 is Idle,
        s0.update_needed && s0.loaded_data is Some ==> action2 is Render && next2 is Working,
{
}

/// However much time has passed, a turn of the animation moves on by no more
/// than `timestep_interval` steps, and never back.
pub proof fn lemma_one_stride_at_a_time(pre: State, now: u64, post: State)
    requires
        pre.wf(),
        State::advanced(&pre, now, &post),
    ensures
        pre.current_step <= post.current_step <= pre.current_step + pre.timestep_interval,
{
}

} // verus!
