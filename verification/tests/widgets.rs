use decay::base::node::{BorderStyle, ProgressStyle, SpinnerStyle};
use decay::ui::button::Button;
use decay::ui::input::{InputState, TextInput};
use decay::ui::label::Label;
use decay::ui::panel::Panel;
use decay::ui::progress::{progress_line, progress_text};
use decay::ui::spinner::SpinnerFrames;
use decay::ui::status::StatusLine;
use decay::ui::timer::{clock_text, fit_clock_text};
use decay::ui::ansi::timer_styled;

#[test]
fn label_pads_and_aligns() {
    assert_eq!(Label::new("hi").render(5), "hi   ");
    assert_eq!(Label::new("hi").right().render(5), "   hi");
    assert_eq!(Label::new("hi").center().render(5), " hi  ");
    assert_eq!(Label::new("hello").render(3), "hel");
    assert_eq!(Label::new("éa").render(2), "éa");
    assert_eq!(Label::new("é").render(1), "é");
    assert_eq!(Label::new("日本語").right().render(5), "  日本語");
}

#[test]
fn label_styled_wraps_in_escapes() {
    let s = Label::new("ok").with_fg(1, 2, 3).bold().styled(2);
    assert_eq!(s, "\x1b[38;2;1;2;3m\x1b[1mok\x1b[0m");
}

#[test]
fn button_render_idle() {
    assert_eq!(Button::new("OK").render(8), "┌──────┐\n│  OK  │\n└──────┘");
}

#[test]
fn button_render_focused() {
    assert_eq!(Button::new("OK").focused().render(8), "╭──────╮\n│ ▸ OK │\n╰──────╯");
}

#[test]
fn button_styled_colors_each_line() {
    let s = Button::new("OK").styled(4);
    let border = "\x1b[38;2;70;70;90m\x1b[48;2;45;45;58m";
    let expected = format!(
        "{border}┌──┐\x1b[0m\n{border}│\x1b[38;2;170;170;185m\x1b[48;2;45;45;58mOK\x1b[38;2;70;70;90m│\x1b[0m\n{border}└──┘\x1b[0m\n"
    );
    assert_eq!(s, expected);
}

#[test]
fn panel_render_with_title() {
    let p = Panel::new("Hi").with_height(3);
    assert_eq!(p.render(8), "┌─ Hi ──┐\n│      │\n└──────┘");
}

#[test]
fn panel_render_ascii_with_content() {
    let p = Panel::untitled().with_border(BorderStyle::Ascii).with_height(4).with_content("ab");
    assert_eq!(p.render(5), "+---+\n|ab |\n|   |\n+---+");
}

#[test]
fn panel_styled_with_shadow() {
    let p = Panel::untitled().with_border(BorderStyle::Ascii).with_height(2).with_shadow();
    let fg = "\x1b[38;2;70;70;90m";
    let mark = "\x1b[38;2;8;8;12m▒\x1b[0m";
    let expected = format!(
        "{fg}+--+\x1b[0m{mark}\n{fg}+--+\x1b[0m{mark}\n \x1b[38;2;8;8;12m▒▒▒▒\x1b[0m\n"
    );
    assert_eq!(p.styled(4), expected);
}

#[test]
fn text_input_render_placeholder_and_value() {
    assert_eq!(TextInput::new("type").render(8), "┌──────┐\n│type  │\n└──────┘");
    assert_eq!(TextInput::new("type").with_value("abc").render(8), "┌──────┐\n│abc   │\n└──────┘");
    assert_eq!(TextInput::new("type").with_value("abcdefgh").render(6), "┌────┐\n│abcd│\n└────┘");
}

#[test]
fn text_input_styled_shows_cursor_when_focused() {
    let t = TextInput::new("").with_value("ab").with_cursor(1).with_state(InputState::Focused);
    let s = t.styled(6);
    assert!(s.contains("a█b "));
}

#[test]
fn clock_formats() {
    assert_eq!(clock_text(3725, 0, false), "01:02:05");
    assert_eq!(clock_text(65, 7, true), "01:05.007");
    assert_eq!(clock_text(0, 0, false), "00:00");
    assert_eq!(clock_text(360000, 0, false), "100:00:00");
}

#[test]
fn clock_fits_width() {
    assert_eq!(fit_clock_text("01:05", 8), "   01:05");
    assert_eq!(fit_clock_text("01:02:05", 5), "01:02");
}

#[test]
fn clock_styled_dims_separators() {
    let s = timer_styled("1:2", (9, 9, 9), (1, 1, 1));
    assert_eq!(s, "\x1b[38;2;9;9;9m1\x1b[38;2;1;1;1m:\x1b[38;2;9;9;9m2\x1b[0m");
}

#[test]
fn progress_text_styles() {
    assert_eq!(progress_text(ProgressStyle::Classic, 10, 5, 40, Some(50)), "[#####-----]  50%");
    assert_eq!(progress_text(ProgressStyle::Smooth, 10, 3, 28, None), "███▌░░░░░░");
    assert_eq!(progress_text(ProgressStyle::Dot, 4, 1, 8, None), "●○○○");
    assert_eq!(progress_text(ProgressStyle::Smooth, 4, 4, 32, Some(100)), "████ 100%");
}

#[test]
fn progress_line_colors() {
    let s = progress_line(ProgressStyle::Dot, 2, 1, 8, (1, 2, 3), (4, 5, 6), None, None);
    assert_eq!(s, "\r\x1b[38;2;1;2;3m●\x1b[38;2;4;5;6m○\x1b[0m");
}

#[test]
fn spinner_frames_cycle() {
    let mut s = SpinnerFrames::new(SpinnerStyle::Line);
    let seen: Vec<char> = (0..5).map(|_| s.tick()).collect();
    assert_eq!(seen, vec!['─', '\\', '│', '/', '─']);
    assert_eq!(s.current(), '\\');
}

#[test]
fn status_line_outputs() {
    let mut st = StatusLine::new(SpinnerStyle::Line, true);
    st.spinner_color(1, 2, 3);
    assert_eq!(st.set_message("work"), None);
    assert_eq!(st.draw(), "\r\x1b[38;2;1;2;3m─\x1b[0m work\x1b[K");
    assert_eq!(st.println("note"), "\r\x1b[Knote\n\r\x1b[38;2;1;2;3m\\\x1b[0m work\x1b[K");
    assert_eq!(st.finish_with_message("done"), "\r\x1b[Kdone\n");
    assert_eq!(st.println("after"), "\r\x1b[Kafter\n");
}

#[test]
fn status_line_off_terminal() {
    let mut st = StatusLine::new(SpinnerStyle::Dots, false);
    assert_eq!(st.set_message("step"), Some("step\n".to_string()));
    assert_eq!(st.println("x"), "x\n");
    assert_eq!(st.finish_and_clear(), "");
    assert_eq!(st.set_message("late"), None);
}

#[test]
fn steady_tick_redraws_until_finished() {
    let mut st = StatusLine::new(SpinnerStyle::Line, true);
    st.set_message("w");
    assert_eq!(st.steady_tick(), Some("\r─ w\x1b[K".to_string()));
    assert_eq!(st.steady_tick(), Some("\r\\ w\x1b[K".to_string()));
    st.finish_and_clear();
    assert_eq!(st.steady_tick(), None);
    let mut off = StatusLine::new(SpinnerStyle::Line, false);
    assert_eq!(off.steady_tick(), Some(String::new()));
}

#[test]
fn button_label_break_splits_its_row() {
    let b = Button::new("hello\nworld");
    assert!(b.printable(14));
    let border = "\x1b[38;2;70;70;90m\x1b[48;2;45;45;58m";
    let fg = "\x1b[38;2;170;170;185m\x1b[48;2;45;45;58m";
    let expected = format!(
        "{border}┌────────────┐\x1b[0m\n{border}│{fg}he\x1b[38;2;70;70;90m│\x1b[0m\n{border}│{fg}ld \x1b[38;2;70;70;90m│\x1b[0m\n{border}└────────────┘\x1b[0m\n"
    );
    assert_eq!(b.styled(14), expected);
    assert!(!Button::new("a\nb").printable(6));
}

#[test]
fn progress_line_with_spinner_frame() {
    let s = progress_line(ProgressStyle::Dot, 1, 1, 8, (1, 2, 3), (4, 5, 6), None, Some('|'));
    assert_eq!(s, "\r| \x1b[38;2;1;2;3m●\x1b[38;2;4;5;6m\x1b[0m");
}

#[test]
fn text_input_renders_three_rows_of_width() {
    assert_eq!(TextInput::new("Name").render(8), "┌──────┐\n│Name  │\n└──────┘");
}

#[test]
fn tall_button_puts_label_on_its_middle_row() {
    let r = Button::new("OK").with_height(5).render(6);
    let lines: Vec<&str> = r.split('\n').collect();
    assert_eq!(lines, vec!["┌────┐", "│    │", "│ OK │", "│    │", "└────┘"]);
}
