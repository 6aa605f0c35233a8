use sectrails::config::AppArgs;
use sectrails::input_state::InputState;
use sectrails::pulse::{PulseFps, PulseLevel, PulseState, StepDir};
use sectrails::run_state::{State, SyncState};
use sectrails::scroll::ScrollState;
use sectrails::statistic::Statistic;
use sectrails::ui::{Alert, Area, Input, KnownArea};

#[test]
fn run_state_is_a_broadcast_flag() {
    let mut s = SyncState::new();
    assert!(s.is_idling());
    assert_eq!(s.as_str(), "IDLING");
    assert_eq!(s.as_pulse_level(), PulseLevel::Black);
    s.process();
    assert!(s.is_processing() && !s.is_idling() && !s.is_exiting());
    assert_eq!(s.as_str(), "PROCESSING");
    assert_eq!(s.as_pulse_level(), PulseLevel::Green);
    s.exit();
    assert!(s.is_exiting());
    assert_eq!(s.state(), State::Exit);
    assert_eq!(s.as_str(), "EXITING");
    assert_eq!(s.as_pulse_level(), PulseLevel::Red);
    s.process();
    s.idle();
    assert_eq!(s.state(), State::Iddling);
}

#[test]
fn statistics_counters() {
    let mut st = Statistic::new();
    st.set_max(3);
    st.increment();
    st.increment();
    assert_eq!(st.get_cur(), 2);
    assert_eq!(st.get_percentage_abs(), 66);
    assert!(!st.is_complete());
    st.increment();
    assert!(st.is_complete());
    assert_eq!(st.get_percentage_abs(), 100);
    st.set_current(29);
    st.set_max(100);
    assert_eq!(st.get_percentage_abs(), 29);
    st.set_current(500);
    assert_eq!(st.get_percentage_abs(), 100);
    st.set_max(0);
    assert_eq!(st.get_percentage_abs(), 0);
    st.increment_errors();
    assert_eq!(st.get_errors(), 1);
    st.add_bytes_processed(11);
    st.add_bytes_processed(4);
    assert_eq!(st.get_bytes_processed(), 15);
}

#[test]
fn statistics_rate_and_clock() {
    let mut st = Statistic::new();
    st.set_current(120);
    st.update_rate(50);
    assert_eq!(st.get_processing_rate(), 0);
    assert_eq!(st.get_elapsed_time(50), None);
    assert_eq!(st.format_elapsed_time(50), "00:00");
    st.start_processing(1000);
    st.update_rate(1000);
    assert_eq!(st.get_processing_rate(), 0);
    st.update_rate(1060);
    assert_eq!(st.get_processing_rate(), 2);
    assert_eq!(st.get_elapsed_time(1060), Some(60));
    assert_eq!(st.get_elapsed_time(999), None);
    assert_eq!(st.format_elapsed_time(1065), "01:05");
    assert_eq!(st.format_elapsed_time(1000 + 3723), "01:02:03");
    assert_eq!(st.format_elapsed_time(1000 + 100 * 3600), "100:00:00");
    st.stop_processing();
    assert_eq!(st.get_elapsed_time(2000), None);
}

#[test]
fn scrolling() {
    let mut s = ScrollState::new();
    assert_eq!(s.as_tuple(), (0, 0));
    s.auto_scroll(50, 10);
    assert_eq!(s.vertical, 40);
    s.scroll_up_by(45, 0);
    assert_eq!(s.vertical, 0);
    assert!(!s.auto_scroll);
    s.auto_scroll(80, 10);
    assert_eq!(s.vertical, 0);
    s.scroll_down_by(30, 25);
    assert_eq!(s.vertical, 25);
    s.scroll_down(25);
    assert_eq!(s.vertical, 25);
    s.scroll_up(25);
    assert_eq!(s.vertical, 24);
    s.scroll_right_by(u16::MAX);
    s.scroll_right();
    assert_eq!(s.horizontal, u16::MAX);
    s.scroll_left_by(10);
    s.scroll_left();
    assert_eq!(s.horizontal, u16::MAX - 11);
    s.scroll_to_bottom(70);
    assert_eq!(s.as_tuple(), (70, u16::MAX - 11));
    assert!(s.auto_scroll);
    s.scroll_to_top();
    assert_eq!(s.vertical, 0);
    assert!(!s.auto_scroll);
    s.unlock();
    assert!(s.auto_scroll);
    s.lock();
    assert!(!s.auto_scroll);
    assert_eq!(s.max_scroll_position(5, 10), 0);
    assert_eq!(s.max_scroll_position(15, 10), 5);
}

#[test]
fn pulse_walks_its_palette() {
    let mut p = PulseState::new(PulseFps::from_u8(200));
    assert_eq!(p.fps, PulseFps::Low);
    assert_eq!(PulseFps::Low.frame_millis(), 33);
    assert_eq!(p.color(PulseLevel::Red, false), 0x00FF0000);
    let mut seen = Vec::new();
    for _ in 0..12 {
        p.color(PulseLevel::Green, true);
        seen.push(p.steps);
    }
    assert_eq!(seen, vec![1, 2, 3, 4, 5, 6, 7, 8, 9, 8, 7, 6]);
    assert_eq!(p.step_dir, StepDir::Left);
    assert_eq!(p.color(PulseLevel::Black, false), 0x00BEBEBE);
    assert_eq!(PulseLevel::Red.as_colors()[9], 0x00990000);
    let p = p.fps(PulseFps::High);
    assert_eq!(p.fps, PulseFps::High);
    let mut d = StepDir::Left;
    d.flip();
    assert_eq!(d, StepDir::Right);
}

#[test]
fn input_editing() {
    let mut s = InputState::new("hello world".to_string());
    s.set_cursor(11);
    s.ctrl_backspace();
    assert_eq!(s.as_str(), "hello ");
    assert_eq!(s.cursor(), 6);
    s.push_str("there");
    assert_eq!(s.as_str(), "hello there");
    s.move_left_word();
    assert_eq!(s.cursor(), 6);
    s.move_left_word();
    assert_eq!(s.cursor(), 0);
    s.move_right_word();
    assert_eq!(s.cursor(), 5);
    s.ctrl_delete();
    assert_eq!(s.as_str(), "hello");
    s.backspace();
    s.left();
    s.push('X');
    assert_eq!(s.as_str(), "helXl");
    s.right();
    s.right();
    s.delete();
    assert_eq!(s.as_str(), "helXl");
    s.set_cursor(0);
    s.delete();
    assert_eq!(s.as_str(), "elXl");
    s.set_cursor(40);
    s.push('!');
    assert_eq!(s.as_str(), "elXl");
    s.normalize_cursor();
    assert_eq!(s.cursor(), 4);
    s.push('é');
    assert_eq!(s.as_str(), "elXlé");
    assert_eq!(s.cursor(), 6);
    assert_eq!(s.len(), 6);
    assert_eq!(s.char_len(), 5);
}

#[test]
fn input_cursor_counts_bytes() {
    let mut s = InputState::new(String::new());
    s.push('é');
    assert_eq!(s.cursor(), 2);
    let mut s = InputState::new(String::new());
    s.push_str("é");
    assert_eq!(s.cursor(), 2);
    let mut s = InputState::new("éa".to_string());
    s.set_cursor(2);
    s.delete();
    assert_eq!(s.as_str(), "é");
    let mut s = InputState::new("é".to_string());
    s.set_cursor(2);
    s.normalize_cursor();
    assert_eq!(s.cursor(), 2);
    s.set_cursor(1);
    s.normalize_cursor();
    assert_eq!(s.cursor(), 2);
    s.set_cursor(1);
    s.push('x');
    assert_eq!(s.as_str(), "é");
    let mut s = InputState::new("aé€b".to_string());
    s.set_cursor(7);
    s.left();
    assert_eq!(s.cursor(), 6);
    s.left();
    assert_eq!(s.cursor(), 3);
    s.left();
    assert_eq!(s.cursor(), 1);
    s.right();
    assert_eq!(s.cursor(), 3);
    s.right();
    assert_eq!(s.cursor(), 6);
    s.set_cursor(6);
    s.backspace();
    assert_eq!(s.as_str(), "aéb");
    assert_eq!(s.cursor(), 3);
    let mut s = InputState::new("ab çé fg".to_string());
    s.set_cursor(7);
    s.move_left_word();
    assert_eq!(s.cursor(), 3);
    s.move_right_word();
    assert_eq!(s.cursor(), 7);
    s.ctrl_backspace();
    assert_eq!(s.as_str(), "ab  fg");
    assert_eq!(s.cursor(), 3);
    s.ctrl_delete();
    assert_eq!(s.as_str(), "ab ");
}

#[test]
fn input_field_and_alert() {
    let i = Input::new(None, Some("type".to_string()));
    assert_eq!(i.label, "Input");
    assert_eq!(i.placeholder, "type");
    assert_eq!(i.value(), "");
    let a = Alert::new("Oops".to_string(), vec!["one".to_string()]).add_line("two".to_string());
    assert_eq!(a.content, vec!["one", "two"]);
    let mut k = KnownArea::new();
    assert_eq!(k.area(), Area { x: 0, y: 0, width: 0, height: 0 });
    k.replace(Some(Area { x: 1, y: 2, width: 3, height: 4 }));
    assert_eq!(k.area().width, 3);
}

#[test]
fn frame_intervals() {
    let mut a = AppArgs {
        fps: 0,
        email: None,
        password: None,
        headless: false,
        username: None,
        input: None,
        output: None,
    };
    assert_eq!(a.frame_interval_millis(), 60000);
    assert_eq!(a.change_poll_millis(), 5);
    a.fps = 2;
    assert_eq!(a.frame_interval_millis(), 200);
    a.fps = 50;
    assert_eq!(a.frame_interval_millis(), 20);
    assert_eq!(a.change_poll_millis(), 50);
}
