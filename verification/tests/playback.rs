use muninn::data::Data;
use muninn::player::{
    PlayerControlsModel, PlayerControlsMsg, PlayerMsg, PlayerSettingsModel, PlayerSettingsMsg,
    PlayerState, PlotSettingsInput, PlotSettingsModel, PlotSettingsOutput,
};
use muninn::plotting::{Axis, PlotRange};
use muninn::rank::{bits_of_rank, rank_of_bits};
use muninn::state::{MouseState, PlotStatus, PollAction, State};
use muninn::viewport::{AxisMove, Modifiers, ScrollDirection};

fn tm(x: f64) -> i64 {
    rank_of_bits(x.to_bits()).expect("not a number")
}

fn val(r: i64) -> f64 {
    f64::from_bits(bits_of_rank(r).expect("not a rank"))
}

fn later_is_nearer(lo: i64, t: i64, hi: i64) -> bool {
    val(hi) - val(t) < val(t) - val(lo)
}

fn data_of(times: &[f64]) -> Data {
    let records = times.iter().map(|&x| (tm(x), vec![(tm(x), tm(-x))])).collect();
    Data::from_sources(vec![(String::from("s"), records)]).0.unwrap()
}

fn loaded(times: &[f64]) -> State {
    let mut state = State::new(0);
    state.load_data(data_of(times));
    state
}

#[test]
fn new_state_has_nothing_loaded() {
    let state = State::new(17);
    assert_eq!(state.current_step, 0);
    assert_eq!(state.current_time, 0);
    assert_eq!(state.n_steps, 0);
    assert!(state.times.is_empty());
    assert_eq!(state.update_interval, 100);
    assert_eq!(state.timestep_interval, 1);
    assert!(state.loaded_data.is_none());
    assert!(state.current_slice.is_none());
    assert!(!state.is_playing);
    assert_eq!(state.last_step_made_at, 17);
    assert!(state.update_needed);
    assert_eq!(state.plot_area_size, (600, 400));
    assert!(state.plot_image_string.is_none());
    let m = MouseState::new();
    assert_eq!(m.position, (0, 0));
    assert!(!m.left_button_held && !m.middle_right_button_held);
}

#[test]
fn go_to_step_without_data_returns_no_step() {
    let mut state = State::new(0);
    assert_eq!(state.go_to_step(0), None);
    assert_eq!(state.current_step, 0);
    assert!(state.current_slice.is_none());
    // a data set without a source
    state.load_data(Data::new());
    assert_eq!(state.n_steps, 0);
    assert_eq!(state.go_to_step(0), None);
    assert_eq!(state.go_to_step(5), None);
    assert_eq!(state.go_to_first_step(), None);
    assert_eq!(state.go_to_last_step(), None);
    assert_eq!(state.go_to_next_step(), None);
    assert_eq!(state.go_to_previous_step(), None);
    assert_eq!(state.jump_to_time(tm(1.0), &later_is_nearer), None);
    assert_eq!(state.jump_to_nearest(tm(1.0), true), None);
    assert_eq!(state.current_step, 0);
}

#[test]
fn load_data_stands_at_the_first_step() {
    let mut state = loaded(&[1.0, 2.0]);
    state.go_to_step(1);
    state.set_playing(true);
    state.update_needed = false;
    state.load_data(data_of(&[5.0, 6.0, 7.0]));
    assert_eq!(state.n_steps, 3);
    assert_eq!(state.times, vec![tm(5.0), tm(6.0), tm(7.0)]);
    assert_eq!(state.current_step, 0);
    assert_eq!(state.current_time, tm(5.0));
    assert_eq!(state.current_slice.as_ref().unwrap().datalines, vec![vec![(tm(5.0), tm(-5.0))]]);
    assert!(!state.is_playing);
    assert!(state.update_needed);
}

#[test]
fn go_to_step_clamps_to_the_last_step() {
    let mut state = loaded(&[1.0, 2.0, 4.0]);
    state.update_needed = false;
    assert_eq!(state.go_to_step(1), Some(tm(2.0)));
    assert_eq!(state.current_step, 1);
    assert_eq!(state.current_time, tm(2.0));
    assert!(state.update_needed);
    assert_eq!(state.current_slice.as_ref().unwrap().time, tm(2.0));
    assert_eq!(state.go_to_step(3), Some(tm(4.0)));
    assert_eq!(state.current_step, 2);
    assert_eq!(state.go_to_step(usize::MAX), Some(tm(4.0)));
    assert_eq!(state.current_step, 2);
    assert_eq!(state.go_to_step(0), Some(tm(1.0)));
}

#[test]
fn go_to_step_twice_is_go_to_step_once() {
    let mut state = loaded(&[1.0, 2.0, 4.0]);
    let first = state.go_to_step(2);
    let step = state.current_step;
    let time = state.current_time;
    let lines = state.current_slice.as_ref().unwrap().datalines.clone();
    let second = state.go_to_step(2);
    assert_eq!(first, second);
    assert_eq!(state.current_step, step);
    assert_eq!(state.current_time, time);
    assert_eq!(state.current_slice.as_ref().unwrap().datalines, lines);
    assert_eq!(state.current_slice.as_ref().unwrap().time, time);
}

#[test]
fn stepping_moves_by_one_and_stops_at_the_ends() {
    let mut state = loaded(&[1.0, 2.0, 4.0]);
    assert_eq!(state.go_to_previous_step(), Some(tm(1.0)));
    assert_eq!(state.go_to_next_step(), Some(tm(2.0)));
    assert_eq!(state.go_to_next_step(), Some(tm(4.0)));
    assert_eq!(state.go_to_next_step(), Some(tm(4.0)));
    assert_eq!(state.current_step, 2);
    assert_eq!(state.go_to_previous_step(), Some(tm(2.0)));
    assert_eq!(state.go_to_last_step(), Some(tm(4.0)));
    assert_eq!(state.go_to_first_step(), Some(tm(1.0)));
    assert_eq!(state.current_step, 0);
}

#[test]
fn jump_goes_to_the_nearest_step() {
    let mut state = loaded(&[1.0, 2.0, 4.0]);
    assert_eq!(state.jump_to_time(tm(2.9), &later_is_nearer), Some(tm(2.0)));
    assert_eq!(state.current_step, 1);
    assert_eq!(state.jump_to_time(tm(3.1), &later_is_nearer), Some(tm(4.0)));
    assert_eq!(state.current_step, 2);
    // a tie goes to the earlier step
    assert_eq!(state.jump_to_time(tm(3.0), &later_is_nearer), Some(tm(2.0)));
    assert_eq!(state.jump_to_time(tm(1.5), &later_is_nearer), Some(tm(1.0)));
    // an exact time is its own step
    assert_eq!(state.jump_to_time(tm(2.0), &later_is_nearer), Some(tm(2.0)));
    assert_eq!(state.current_step, 1);
    assert_eq!(state.current_slice.as_ref().unwrap().time, tm(2.0));
}

#[test]
fn jump_clamps_the_time_to_the_span() {
    let mut state = loaded(&[1.0, 2.0, 4.0]);
    assert_eq!(state.jump_to_time(tm(-7.0), &later_is_nearer), Some(tm(1.0)));
    assert_eq!(state.current_step, 0);
    assert_eq!(state.jump_to_time(tm(99.0), &later_is_nearer), Some(tm(4.0)));
    assert_eq!(state.current_step, 2);
    assert_eq!(state.jump_to_time(tm(4.0), &later_is_nearer), Some(tm(4.0)));
}

#[test]
fn jump_asks_only_between_two_steps() {
    let mut state = loaded(&[1.0, 2.0, 4.0]);
    let always = |_: i64, _: i64, _: i64| true;
    assert_eq!(state.jump_to_time(tm(2.0), &always), Some(tm(2.0)));
    assert_eq!(state.jump_to_time(tm(9.0), &always), Some(tm(4.0)));
    assert_eq!(state.jump_to_time(tm(0.0), &always), Some(tm(1.0)));
    assert_eq!(state.jump_to_time(tm(2.1), &always), Some(tm(4.0)));
    assert_eq!(state.jump_to_nearest(tm(2.1), false), Some(tm(2.0)));
    assert_eq!(state.jump_to_nearest(tm(2.1), true), Some(tm(4.0)));
    assert_eq!(state.jump_to_nearest(tm(4.0), true), Some(tm(4.0)));
    assert_eq!(state.step_before(tm(3.0)), Some((1, Some((tm(2.0), tm(3.0), tm(4.0))))));
    assert_eq!(state.step_before(tm(4.0)), Some((2, None)));
    assert_eq!(state.step_before(tm(-4.0)), Some((0, None)));
}

#[test]
fn animation_advances_once_the_interval_has_passed() {
    let mut state = loaded(&[1.0, 2.0, 3.0, 4.0, 5.0]);
    state.set_timestep_interval(2);
    state.set_update_interval(100);
    state.update_needed = false;
    // at rest nothing moves
    state.advance_animation(1_000);
    assert_eq!(state.current_step, 0);
    state.set_playing(true);
    state.advance_animation(100);
    assert_eq!(state.current_step, 0);
    assert_eq!(state.last_step_made_at, 0);
    assert!(!state.update_needed);
    state.advance_animation(101);
    assert_eq!(state.current_step, 2);
    assert_eq!(state.current_time, tm(3.0));
    assert_eq!(state.last_step_made_at, 101);
    assert!(state.update_needed);
    // however late, one stride at a time
    state.advance_animation(1_000_000);
    assert_eq!(state.current_step, 4);
    state.advance_animation(2_000_000);
    assert_eq!(state.current_step, 4);
    assert!(state.is_playing);
    assert_eq!(state.last_step_made_at, 2_000_000);
    // a clock that went back moves nothing
    state.go_to_step(0);
    state.advance_animation(5);
    assert_eq!(state.current_step, 0);
}

#[test]
fn animation_stride_does_not_overflow() {
    let mut state = loaded(&[1.0, 2.0, 3.0]);
    state.set_playing(true);
    state.set_timestep_interval(usize::MAX);
    state.go_to_step(1);
    state.advance_animation(500);
    assert_eq!(state.current_step, 2);
    state.set_update_interval(-1);
    state.go_to_step(0);
    state.advance_animation(5_000);
    assert_eq!(state.current_step, 0);
}

#[test]
fn playing_needs_data() {
    let mut state = State::new(0);
    state.set_playing(true);
    assert!(!state.is_playing);
    assert!(!state.toggle_playing());
    state.load_data(data_of(&[1.0]));
    assert!(state.toggle_playing());
    assert!(state.is_playing);
    assert!(!state.toggle_playing());
    state.set_playing(true);
    assert!(state.is_playing);
    state.set_playing(false);
    assert!(!state.is_playing);
}

#[test]
fn request_holds_what_is_shown() {
    let state = State::new(0);
    assert!(state.request_plot().is_none());
    let mut state = loaded(&[1.0, 2.0]);
    state.go_to_step(1);
    state.set_plot_area_size((300, 200));
    state.set_logscale(Axis::Y, true);
    let request = state.request_plot().unwrap();
    assert_eq!(request.slice.time, tm(2.0));
    assert_eq!(request.slice.datalines, vec![vec![(tm(2.0), tm(-2.0))]]);
    assert_eq!(request.size, (300, 200));
    assert!(request.settings.use_logscale_y);
    state.current_slice = None;
    let request = state.request_plot().unwrap();
    assert_eq!(request.slice.datalines, vec![vec![(tm(2.0), tm(-2.0))]]);
}

#[test]
fn poll_asks_for_one_picture_at_a_time() {
    let mut state = loaded(&[1.0, 2.0]);
    let (status, action) = state.poll(PlotStatus::Idle, 10);
    assert!(matches!(status, PlotStatus::Working));
    assert!(matches!(action, PollAction::Render(ref r) if r.slice.time == tm(1.0)));
    // the picture counts as up to date from the moment it is asked for
    assert!(!state.update_needed);
    // while the picture is made nothing happens, whatever is due
    state.set_playing(true);
    let (status, action) = state.poll(PlotStatus::Working, 10_000);
    assert!(matches!(status, PlotStatus::Working));
    assert!(matches!(action, PollAction::Nothing));
    assert_eq!(state.current_step, 0);
    assert!(!state.update_needed);
    // the picture is taken over with its ranges
    let done = PlotStatus::Finished(Some((
        String::from("<svg/>"),
        (PlotRange::Fixed((1, 2)), PlotRange::Fixed((3, 4))),
    )));
    let (status, action) = state.poll(done, 10_000);
    assert!(matches!(status, PlotStatus::Idle));
    assert!(matches!(action, PollAction::Show));
    assert_eq!(state.plot_image_string.as_deref(), Some("<svg/>"));
    assert!(matches!(state.plot_range_x_actual, PlotRange::Fixed((1, 2))));
    assert!(matches!(state.plot_range_y_actual, PlotRange::Fixed((3, 4))));
    assert!(!state.update_needed);
    assert_eq!(state.current_step, 0);
    // then the animation goes on, and the new step wants its picture
    let (status, action) = state.poll(PlotStatus::Idle, 10_000);
    assert_eq!(state.current_step, 1);
    assert!(matches!(status, PlotStatus::Working));
    assert!(matches!(action, PollAction::Render(ref r) if r.slice.time == tm(2.0)));
}

#[test]
fn poll_without_anything_to_do_does_nothing() {
    let mut state = State::new(0);
    let (status, action) = state.poll(PlotStatus::Idle, 10);
    assert!(matches!(status, PlotStatus::Idle));
    assert!(matches!(action, PollAction::Nothing));
    assert!(state.update_needed);
    let (status, action) = state.poll(PlotStatus::Finished(None), 10);
    assert!(matches!(status, PlotStatus::Idle));
    assert!(matches!(action, PollAction::Nothing));
    assert!(state.plot_image_string.is_none());
    assert!(state.update_needed);
    let mut state = loaded(&[1.0]);
    state.update_needed = false;
    let (status, action) = state.poll(PlotStatus::Idle, 10);
    assert!(matches!(status, PlotStatus::Idle));
    assert!(matches!(action, PollAction::Nothing));
}

#[test]
fn settings_make_a_picture_due() {
    let mut state = loaded(&[1.0]);
    state.update_needed = false;
    state.set_update_interval(250);
    state.set_timestep_interval(3);
    assert_eq!(state.update_interval, 250);
    assert_eq!(state.timestep_interval, 3);
    assert!(!state.update_needed);
    state.set_plot_range(Axis::X, (1, 9));
    assert!(matches!(state.plot_settings.plot_range_x, PlotRange::Fixed((1, 9))));
    assert!(matches!(state.plot_settings.plot_range_y, PlotRange::Auto));
    assert!(state.update_needed);
    state.update_needed = false;
    state.set_logscale(Axis::X, true);
    assert!(state.plot_settings.use_logscale_x && !state.plot_settings.use_logscale_y);
    assert!(state.update_needed);
    state.update_needed = false;
    state.set_style(false, true, false);
    assert!(!state.plot_settings.draw_lines);
    assert!(state.plot_settings.draw_points);
    assert!(!state.plot_settings.use_color);
    assert!(state.update_needed);
    state.update_needed = false;
    state.set_plot_area_size((600, 400));
    assert!(!state.update_needed);
    state.set_plot_area_size((601, 400));
    assert_eq!(state.plot_area_size, (601, 400));
    assert!(state.update_needed);
}

#[test]
fn autoscale_off_holds_the_range_that_is_shown() {
    let mut state = loaded(&[1.0]);
    state.plot_range_y_actual = PlotRange::Fixed((-5, 5));
    state.update_needed = false;
    state.set_autoscale(Axis::Y, false);
    assert!(matches!(state.plot_settings.plot_range_y, PlotRange::Fixed((-5, 5))));
    assert!(!state.update_needed);
    state.set_autoscale(Axis::Y, true);
    assert!(matches!(state.plot_settings.plot_range_y, PlotRange::Auto));
    assert!(state.update_needed);
    state.set_plot_ranges(PlotRange::Fixed((0, 1)), PlotRange::Fixed((2, 3)));
    assert!(matches!(state.plot_settings.plot_range_x, PlotRange::Fixed((0, 1))));
    assert!(matches!(state.plot_settings.plot_range_y, PlotRange::Fixed((2, 3))));
}

#[test]
fn entered_bounds_replace_the_shown_ones() {
    let mut state = loaded(&[1.0]);
    state.update_needed = false;
    state.update_ranges((10, 20), (30, 40), Some(11), None, None, Some(44));
    assert!(matches!(state.plot_settings.plot_range_x, PlotRange::Fixed((11, 20))));
    assert!(matches!(state.plot_settings.plot_range_y, PlotRange::Fixed((30, 44))));
    assert!(state.update_needed);
}

#[test]
fn buttons_select_and_move() {
    let mut state = State::new(0);
    state.button_press(1, (10, 20));
    assert!(state.mouse_state.left_button_held);
    assert_eq!(state.mouse_state.drag_start, (10, 20));
    assert_eq!(state.button_release(1, (10, 20)), None);
    assert!(!state.mouse_state.left_button_held);
    state.button_press(1, (10, 20));
    assert_eq!(state.button_release(1, (30, 5)), Some(((10, 20), (30, 5))));
    state.button_press(3, (1, 1));
    assert!(state.mouse_state.middle_right_button_held);
    assert_eq!(state.pointer_motion((4, 4)), Some(((0, 0), (4, 4))));
    assert_eq!(state.pointer_motion((6, 5)), Some(((4, 4), (6, 5))));
    assert_eq!(state.mouse_state.position, (6, 5));
    assert_eq!(state.button_release(3, (6, 5)), None);
    assert!(!state.mouse_state.middle_right_button_held);
    assert_eq!(state.pointer_motion((7, 7)), None);
    assert_eq!(state.mouse_state.last_position, (7, 7));
    state.button_press(9, (0, 0));
    assert!(!state.mouse_state.left_button_held && !state.mouse_state.middle_right_button_held);
    state.button_press(2, (0, 0));
    assert!(state.mouse_state.middle_right_button_held);
    assert_eq!(state.button_release(2, (5, 5)), None);
}

#[test]
fn scroll_moves_the_shown_range() {
    let shift_by_one = |m: AxisMove, r: (i64, i64), _p: i64| match m {
        AxisMove::Forward => (r.0 + 1, r.1 + 1),
        AxisMove::Backward => (r.0 - 1, r.1 - 1),
        AxisMove::ZoomIn => (r.0 + 1, r.1 - 1),
        AxisMove::ZoomOut => (r.0 - 1, r.1 + 1),
        AxisMove::Keep => r,
    };
    let plain = Modifiers { shift: false, ctrl: false, alt: false };
    let mut state = loaded(&[1.0]);
    state.update_needed = false;
    // nothing is shown yet: the ranges stay, a picture is due
    state.scroll(plain, ScrollDirection::Up, (0, 0), &shift_by_one);
    assert!(matches!(state.plot_settings.plot_range_y, PlotRange::Auto));
    assert!(state.update_needed);
    state.plot_range_x_actual = PlotRange::Fixed((10, 20));
    state.plot_range_y_actual = PlotRange::Fixed((30, 40));
    state.scroll(plain, ScrollDirection::Up, (0, 0), &shift_by_one);
    assert!(matches!(state.plot_settings.plot_range_x, PlotRange::Auto));
    assert!(matches!(state.plot_settings.plot_range_y, PlotRange::Fixed((31, 41))));
    let ctrl = Modifiers { shift: false, ctrl: true, alt: false };
    state.scroll(ctrl, ScrollDirection::Down, (15, 35), &shift_by_one);
    assert!(matches!(state.plot_settings.plot_range_x, PlotRange::Fixed((9, 21))));
    assert!(matches!(state.plot_settings.plot_range_y, PlotRange::Fixed((29, 41))));
}

#[test]
fn player_steps_within_its_data() {
    let mut player = PlayerState::from_data(data_of(&[1.0, 2.0, 4.0, 8.0]), 50);
    assert_eq!(player.n_steps, 4);
    assert_eq!(player.position, 0);
    assert_eq!(player.last_update, 50);
    assert_eq!(player.time(), tm(1.0));
    player.step_forward(2);
    assert_eq!(player.position, 2);
    assert_eq!(player.time(), tm(4.0));
    player.step_forward(usize::MAX);
    assert_eq!(player.position, 3);
    player.step_backward(1);
    assert_eq!(player.position, 2);
    player.step_backward(5);
    assert_eq!(player.position, 0);
    player.last_step();
    assert_eq!(player.position, 3);
    player.first_step();
    assert_eq!(player.position, 0);
}

#[test]
fn player_without_data_stays_where_it_is() {
    let mut player = PlayerState::from_data(Data::new(), 0);
    assert_eq!(player.time(), 0);
    player.step_forward(1);
    player.step_backward(1);
    player.last_step();
    player.first_step();
    player.jump_to_time(tm(3.0), &later_is_nearer);
    assert_eq!(player.position, 0);
    player.animate(10, 1, 100);
    assert_eq!(player.position, 0);
    assert_eq!(player.last_update, 100);
}

#[test]
fn player_jumps_to_the_nearest_step() {
    let mut player = PlayerState::from_data(data_of(&[1.0, 2.0, 4.0, 8.0]), 0);
    player.jump_to_time(tm(5.0), &later_is_nearer);
    assert_eq!(player.position, 2);
    player.jump_to_time(tm(7.0), &later_is_nearer);
    assert_eq!(player.position, 3);
    player.jump_to_time(tm(6.0), &later_is_nearer);
    assert_eq!(player.position, 2);
    player.jump_to_time(tm(100.0), &later_is_nearer);
    assert_eq!(player.position, 3);
    player.jump_to_time(tm(0.0), &later_is_nearer);
    assert_eq!(player.position, 0);
    player.jump_to_time(tm(2.0), &later_is_nearer);
    assert_eq!(player.position, 1);
}

#[test]
fn player_animates_one_stride_at_a_time() {
    let mut player = PlayerState::from_data(data_of(&[1.0, 2.0, 4.0, 8.0]), 0);
    player.animate(100, 1, 100);
    assert_eq!(player.position, 0);
    assert_eq!(player.last_update, 0);
    player.animate(100, 1, 101);
    assert_eq!(player.position, 1);
    assert_eq!(player.last_update, 101);
    player.animate(100, 2, 100_000);
    assert_eq!(player.position, 3);
    player.animate(100, 2, 200_000);
    assert_eq!(player.position, 3);
    assert_eq!(player.last_update, 200_000);
}

#[test]
fn player_models_take_their_messages() {
    let mut settings = PlayerSettingsModel::default();
    assert_eq!(settings.update_interval_ms, 100);
    assert_eq!(settings.step_size, 1);
    settings.update(PlayerSettingsMsg::SetUpdateInterval(30));
    settings.update(PlayerSettingsMsg::SetStepSize(4));
    assert_eq!(settings.update_interval_ms, 30);
    assert_eq!(settings.step_size, 4);
    let mut controls = PlayerControlsModel { is_playing: false };
    assert!(matches!(controls.update(PlayerControlsMsg::Play), PlayerControlsMsg::Play));
    assert!(controls.is_playing);
    assert!(matches!(controls.update(PlayerControlsMsg::LastStep), PlayerControlsMsg::LastStep));
    assert!(controls.is_playing);
    assert!(matches!(controls.update(PlayerControlsMsg::Pause), PlayerControlsMsg::Pause));
    assert!(!controls.is_playing);
}

#[test]
fn player_does_what_it_is_asked() {
    let settings = PlayerSettingsModel { update_interval_ms: 100, step_size: 2 };
    let mut player = PlayerState::from_data(data_of(&[1.0, 2.0, 4.0, 8.0]), 0);
    player.update(PlayerMsg::StepForward, &settings, false, 10, &later_is_nearer);
    assert_eq!(player.position, 2);
    player.update(PlayerMsg::StepBackward, &settings, false, 10, &later_is_nearer);
    assert_eq!(player.position, 0);
    player.update(PlayerMsg::LastStep, &settings, false, 10, &later_is_nearer);
    assert_eq!(player.position, 3);
    player.update(PlayerMsg::FirstStep, &settings, false, 10, &later_is_nearer);
    assert_eq!(player.position, 0);
    player.update(PlayerMsg::JumpToTime(tm(3.5)), &settings, false, 10, &later_is_nearer);
    assert_eq!(player.position, 2);
    player.update(PlayerMsg::Ignore, &settings, true, 10_000, &later_is_nearer);
    assert_eq!(player.position, 2);
    // a ping moves the player only while it plays
    player.update(PlayerMsg::FirstStep, &settings, false, 10, &later_is_nearer);
    player.update(PlayerMsg::AnimationPing, &settings, false, 10_000, &later_is_nearer);
    assert_eq!(player.position, 0);
    assert_eq!(player.last_update, 0);
    player.update(PlayerMsg::AnimationPing, &settings, true, 10_000, &later_is_nearer);
    assert_eq!(player.position, 2);
    assert_eq!(player.last_update, 10_000);
    player.update(PlayerMsg::NewData(data_of(&[5.0, 6.0])), &settings, true, 20_000, &later_is_nearer);
    assert_eq!(player.position, 0);
    assert_eq!(player.n_steps, 2);
    assert_eq!(player.times, vec![tm(5.0), tm(6.0)]);
    assert_eq!(player.last_update, 20_000);
}

#[test]
fn plot_settings_take_an_entered_bound() {
    let mut model = PlotSettingsModel {
        x_range_min: tm(0.0),
        x_range_max: tm(1.0),
        y_range_min: tm(0.0),
        y_range_max: tm(1.0),
        autoscale_x: false,
        autoscale_y: false,
        logscale_x: false,
        logscale_y: false,
    };
    let PlotSettingsOutput::PlotSettingsChanged(told) =
        model.update(PlotSettingsInput::XRangeMinChanged(tm(-2.0)));
    assert_eq!(told.x_range_min, tm(-2.0));
    assert_eq!(model.x_range_min, tm(-2.0));
    model.update(PlotSettingsInput::XRangeMaxChanged(tm(3.0)));
    model.update(PlotSettingsInput::YRangeMinChanged(tm(4.0)));
    let PlotSettingsOutput::PlotSettingsChanged(told) =
        model.update(PlotSettingsInput::YRangeMaxChanged(tm(5.0)));
    assert_eq!(
        (told.x_range_min, told.x_range_max, told.y_range_min, told.y_range_max),
        (tm(-2.0), tm(3.0), tm(4.0), tm(5.0))
    );
    assert!(!told.autoscale_x && !told.logscale_y);
}

#[test]
fn well_formed_states_pass_the_check() {
    assert!(State::new(0).check());
    let mut state = loaded(&[1.0, 2.0, 4.0]);
    assert!(state.check());
    state.go_to_step(2);
    state.set_playing(true);
    state.advance_animation(1_000);
    state.jump_to_time(tm(1.7), &later_is_nearer);
    assert!(state.check());
    state.current_slice = None;
    assert!(state.check());
    state.current_step = 0;
    assert!(!state.check());
    state.current_step = 1;
    state.n_steps = 2;
    assert!(!state.check());
    state.n_steps = 3;
    state.times[2] = tm(5.0);
    assert!(!state.check());
    state.times[2] = tm(4.0);
    assert!(state.check());
    state.go_to_step(1);
    state.current_slice.as_mut().unwrap().datalines.push(Vec::new());
    assert!(!state.check());
    let mut empty = State::new(0);
    empty.n_steps = 1;
    assert!(!empty.check());
    let mut player = PlayerState::from_data(data_of(&[1.0, 2.0]), 0);
    assert!(player.check());
    player.position = 2;
    assert!(!player.check());
    player.position = 1;
    player.times.pop();
    assert!(!player.check());
}

#[test]
fn change_while_a_picture_is_made_is_drawn_next() {
    let mut state = loaded(&[1.0, 2.0]);
    let (status, action) = state.poll(PlotStatus::Idle, 10);
    assert!(matches!(status, PlotStatus::Working));
    assert!(matches!(action, PollAction::Render(ref r) if !r.settings.use_logscale_y));
    // a setting changes while the picture is being made
    state.set_logscale(Axis::Y, true);
    assert!(state.update_needed);
    let (status, action) = state.poll(PlotStatus::Working, 20);
    assert!(matches!(status, PlotStatus::Working));
    assert!(matches!(action, PollAction::Nothing));
    // the picture that arrives is shown, and leaves the change due
    let done = PlotStatus::Finished(Some((
        String::from("<svg/>"),
        (PlotRange::Fixed((1, 2)), PlotRange::Fixed((3, 4))),
    )));
    let (status, action) = state.poll(done, 30);
    assert!(matches!(status, PlotStatus::Idle));
    assert!(matches!(action, PollAction::Show));
    assert!(state.update_needed);
    // the next turn asks for the picture with the new setting
    let (status, action) = state.poll(status, 40);
    assert!(matches!(status, PlotStatus::Working));
    assert!(matches!(action, PollAction::Render(ref r) if r.settings.use_logscale_y));
    assert!(!state.update_needed);
    // and once that has arrived nothing more is due
    let (status, _) = state.poll(PlotStatus::Finished(None), 50);
    let (status, action) = state.poll(status, 60);
    assert!(matches!(status, PlotStatus::Idle));
    assert!(matches!(action, PollAction::Nothing));
}

#[test]
fn empty_data_set_is_asked_for_once() {
    let mut state = State::new(0);
    state.load_data(Data::new());
    let (status, action) = state.poll(PlotStatus::Idle, 10);
    assert!(matches!(status, PlotStatus::Working));
    assert!(matches!(action, PollAction::Render(ref r) if r.slice.datalines.is_empty()));
    let (status, action) = state.poll(PlotStatus::Finished(None), 20);
    assert!(matches!(status, PlotStatus::Idle));
    assert!(matches!(action, PollAction::Nothing));
    let (status, action) = state.poll(status, 30);
    assert!(matches!(status, PlotStatus::Idle));
    assert!(matches!(action, PollAction::Nothing));
}
