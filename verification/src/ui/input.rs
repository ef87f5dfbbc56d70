use vstd::prelude::*;

use crate::ui::ansi::{esc_reset, esc_rgb, esc_sgr, push_all, push_rgb, push_sgr};
use crate::text::{
    append_line, chars_to_string, join_lines, push_prefix, push_repeat, repeat_char, sat_sub,
    str_byte_len, str_chars, take_chars, utf8_len,
};

verus! {

/// Visual state for standalone text input rendering.
#[derive(Clone, Copy, PartialEq, Eq, Structural)]
pub enum InputState {
    Idle,
    Focused,
}

/// Standalone text input field display.
pub struct TextInput {
    pub value: String,
    pub placeholder: String,
    pub cursor: usize,
    pub state: InputState,
    pub fg_idle: (u8, u8, u8),
    pub bg_idle: (u8, u8, u8),
    pub fg_focus: (u8, u8, u8),
    pub bg_focus: (u8, u8, u8),
    pub border_idle: (u8, u8, u8),
    pub border_focus: (u8, u8, u8),
}

/// The text a field shows: the placeholder when it is empty and idle, else its value.
pub open spec fn shown_text(t: TextInput) -> Seq<char> {
    if t.value@.len() == 0 && t.state == InputState::Idle {
        t.placeholder@
    } else {
        t.value@
    }
}

/// The three lines of a field `width` columns wide: borders around the shown
/// text, cut or space-padded to the inner width.
pub open spec fn input_lines(t: TextInput, width: nat) -> Seq<Seq<char>> {
    let inner = sat_sub(width, 2);
    let shown = take_chars(shown_text(t), inner);
    seq![
        seq!['\u{250c}'] + repeat_char('\u{2500}', inner) + seq!['\u{2510}'],
        seq!['\u{2502}'] + shown + repeat_char(' ', sat_sub(inner, shown.len())) + seq!['\u{2502}'],
        seq!['\u{2514}'] + repeat_char('\u{2500}', inner) + seq!['\u{2518}'],
    ]
}


/// The (text, background, border) colors of a field in its state.
pub open spec fn input_palette(t: TextInput) -> ((u8, u8, u8), (u8, u8, u8), (u8, u8, u8)) {
    match t.state {
        InputState::Idle => (t.fg_idle, t.bg_idle, t.border_idle),
        InputState::Focused => (t.fg_focus, t.bg_focus, t.border_focus),
    }
}

/// The inside of a field's middle row as printed: the placeholder dimmed
/// when it is empty and idle; a cursor block when it is empty and focused;
/// the value (cut to the inside) with a cursor block at the cursor when it
/// is focused; else the value cut to the inside; each padded with spaces.
pub open spec fn input_inside_styled(t: TextInput, inner: nat, text_style: Seq<char>) -> Seq<char> {
    if t.value@.len() == 0 {
        if t.state == InputState::Idle {
            let ph = take_chars(t.placeholder@, inner);
            esc_sgr(seq!['2']) + text_style + ph + repeat_char(' ', sat_sub(inner, ph.len())) + esc_sgr(seq!['2', '2'])
        } else {
            text_style + seq!['\u{2588}'] + repeat_char(' ', sat_sub(inner, 1))
        }
    } else if t.state == InputState::Focused {
        let visible = take_chars(t.value@, inner);
        let cur = if t.cursor <= visible.len() { t.cursor as int } else { visible.len() as int };
        text_style + visible.take(cur) + seq!['\u{2588}'] + visible.skip(cur) + repeat_char(' ', sat_sub(inner, visible.len() + 1))
    } else {
        let shown = take_chars(t.value@, inner);
        text_style + shown + repeat_char(' ', sat_sub(inner, shown.len()))
    }
}

/// A border row as printed: the style, the row, a reset, a line break.
pub open spec fn styled_edge(style: Seq<char>, l: char, h: char, n: nat, r: char) -> Seq<char> {
    style + seq![l] + repeat_char(h, n) + seq![r] + esc_reset() + seq!['\n']
}

/// What a field prints: its three rows, the borders in the border color and
/// the inside in the text color, all on the field's background.
pub open spec fn input_styled(t: TextInput, width: nat) -> Seq<char> {
    let inner = sat_sub(width, 2);
    let (fg, bg, border) = input_palette(t);
    let border_style = esc_rgb('3', border) + esc_rgb('4', bg);
    let text_style = esc_rgb('3', fg) + esc_rgb('4', bg);
    styled_edge(border_style, '\u{250c}', '\u{2500}', inner, '\u{2510}') + (border_style + seq!['\u{2502}']
        + input_inside_styled(t, inner, text_style) + border_style + seq!['\u{2502}'] + esc_reset() + seq!['\n'])
        + styled_edge(border_style, '\u{2514}', '\u{2500}', inner, '\u{2518}')
}

fn push_edge(out: &mut Vec<char>, style: &Vec<char>, l: char, h: char, n: usize, r: char)
    ensures
        final(out)@ == old(out)@ + styled_edge(style@, l, h, n as nat, r),
{
    let ghost o = out@;
    push_all(out, style.as_slice());
    out.push(l);
    push_repeat(out, h, n);
    out.push(r);
    push_sgr(out, '0');
    out.push('\n');
    proof {
        assert(out@ =~= o + styled_edge(style@, l, h, n as nat, r));
    }
}

impl TextInput {
    pub fn new(placeholder: &str) -> (t: Self)
        ensures
            t.value@.len() == 0,
            t.placeholder@ == placeholder@,
            t.cursor == 0,
            t.state == InputState::Idle,
            t.fg_idle == (200u8, 200u8, 210u8),
            t.bg_idle == (45u8, 45u8, 58u8),
            t.fg_focus == (230u8, 235u8, 255u8),
            t.bg_focus == (50u8, 80u8, 160u8),
            t.border_idle == (70u8, 70u8, 90u8),
            t.border_focus == (90u8, 130u8, 220u8),
    {
        TextInput {
            value: String::new(),
            placeholder: String::from_str(placeholder),
            cursor: 0,
            state: InputState::Idle,
            fg_idle: (200, 200, 210),
            bg_idle: (45, 45, 58),
            fg_focus: (230, 235, 255),
            bg_focus: (50, 80, 160),
            border_idle: (70, 70, 90),
            border_focus: (90, 130, 220),
        }
    }

    /// Sets the value; the cursor goes to its end, counted in bytes.
    pub fn with_value(self, text: &str) -> (t: Self)
        ensures
            t.value@ == text@,
            t.cursor == utf8_len(text@),
            t.placeholder == self.placeholder,
            t.state == self.state,
            t.fg_idle == self.fg_idle && t.bg_idle == self.bg_idle,
            t.fg_focus == self.fg_focus && t.bg_focus == self.bg_focus,
            t.border_idle == self.border_idle && t.border_focus == self.border_focus,
    {
        let mut s = self;
        s.value = String::from_str(text);
        s.cursor = str_byte_len(text);
        s
    }

    pub fn with_cursor(self, pos: usize) -> (t: Self)
        ensures
            t == (TextInput { cursor: pos, ..self }),
    {
        let mut s = self;
        s.cursor = pos;
        s
    }

    pub fn with_state(self, state: InputState) -> (t: Self)
        ensures
            t == (TextInput { state, ..self }),
    {
        let mut s = self;
        s.state = state;
        s
    }

    pub fn focused(self) -> (t: Self)
        ensures
            t == (TextInput { state: InputState::Focused, ..self }),
    {
        self.with_state(InputState::Focused)
    }

    /// Render this text input to a plain 3-line string (no ANSI colors).
    pub fn render(&self, width: usize) -> (r: String)
        ensures
            r@ == join_lines(input_lines(*self, width as nat)),
    {
        let inner = width.saturating_sub(2);
        let mut top: Vec<char> = Vec::new();
        top.push('\u{250c}');
        push_repeat(&mut top, '\u{2500}', inner);
        top.push('\u{2510}');
        let mut bottom: Vec<char> = Vec::new();
        bottom.push('\u{2514}');
        push_repeat(&mut bottom, '\u{2500}', inner);
        bottom.push('\u{2518}');
        let value = str_chars(self.value.as_str());
        let text = if value.len() == 0 && self.state == InputState::Idle {
            str_chars(self.placeholder.as_str())
        } else {
            value
        };
        let mut middle: Vec<char> = Vec::new();
        middle.push('\u{2502}');
        push_prefix(&mut middle, text.as_slice(), inner);
        let shown_len = middle.len() - 1;
        push_repeat(&mut middle, ' ', inner.saturating_sub(shown_len));
        middle.push('\u{2502}');
        let ghost lines = input_lines(*self, width as nat);
        let ghost ls0: Seq<Seq<char>> = Seq::empty();
        let mut out: Vec<char> = Vec::new();
        append_line(&mut out, top.as_slice(), true, Ghost(ls0));
        append_line(&mut out, middle.as_slice(), false, Ghost(ls0.push(top@)));
        append_line(&mut out, bottom.as_slice(), false, Ghost(ls0.push(top@).push(middle@)));
        proof {
            let inner_n = sat_sub(width as nat, 2);
            assert(top@ =~= seq!['\u{250c}'] + repeat_char('\u{2500}', inner_n) + seq!['\u{2510}']);
            assert(bottom@ =~= seq!['\u{2514}'] + repeat_char('\u{2500}', inner_n) + seq!['\u{2518}']);
            let shown = take_chars(shown_text(*self), inner_n);
            assert(middle@ =~= seq!['\u{2502}'] + shown + repeat_char(' ', sat_sub(inner_n, shown.len())) + seq!['\u{2502}']);
            assert(ls0.push(top@).push(middle@).push(bottom@) =~= lines);
        }
        chars_to_string(&out)
    }

    fn push_value_with_cursor(&self, out: &mut Vec<char>, value: &Vec<char>, inner: usize, text_style: &Vec<char>)
        requires
            inner < usize::MAX,
        ensures
            ({
                let visible = take_chars(value@, inner as nat);
                let cur = if self.cursor <= visible.len() { self.cursor as int } else { visible.len() as int };
                final(out)@ == old(out)@ + text_style@ + visible.take(cur) + seq!['\u{2588}'] + visible.skip(cur) + repeat_char(
                    ' ',
                    sat_sub(inner as nat, visible.len() + 1),
                )
            }),
    {
        let ghost o = out@;
        let mut visible: Vec<char> = Vec::new();
        push_prefix(&mut visible, value.as_slice(), inner);
        let cur = if self.cursor <= visible.len() { self.cursor } else { visible.len() };
        let used = visible.len() + 1;
        let pad = if used < inner { inner - used } else { 0 };
        push_all(out, text_style.as_slice());
        let mut i: usize = 0;
        let ghost b0 = out@;
        while i < cur
            invariant
                0 <= i <= cur <= visible@.len(),
                out@ == b0 + visible@.take(i as int),
            decreases cur - i,
        {
            out.push(visible[i]);
            proof {
                assert(visible@.take(i + 1) =~= visible@.take(i as int).push(visible@[i as int]));
            }
            i = i + 1;
        }
        out.push('\u{2588}');
        let ghost b1 = out@;
        while i < visible.len()
            invariant
                cur <= i <= visible@.len(),
                out@ == b1 + visible@.subrange(cur as int, i as int),
            decreases visible@.len() - i,
        {
            out.push(visible[i]);
            proof {
                assert(visible@.subrange(cur as int, i + 1) =~= visible@.subrange(cur as int, i as int).push(visible@[i as int]));
            }
            i = i + 1;
        }
        push_repeat(out, ' ', pad);
        proof {
            assert(visible@.subrange(cur as int, visible@.len() as int) =~= visible@.skip(cur as int));
            assert(out@ =~= o + text_style@ + visible@.take(cur as int) + seq!['\u{2588}'] + visible@.skip(cur as int) + repeat_char(' ', sat_sub(inner as nat, visible@.len() + 1)));
        }
    }

    fn push_inside(&self, out: &mut Vec<char>, inner: usize, text_style: &Vec<char>)
        requires
            inner < usize::MAX,
        ensures
            final(out)@ == old(out)@ + input_inside_styled(*self, inner as nat, text_style@),
    {
        let ghost o = out@;
        let value = str_chars(self.value.as_str());
        if value.len() == 0 {
            match self.state {
                InputState::Idle => {
                    push_sgr(out, '2');
                    push_all(out, text_style.as_slice());
                    let ph = str_chars(self.placeholder.as_str());
                    let mut shown: Vec<char> = Vec::new();
                    push_prefix(&mut shown, ph.as_slice(), inner);
                    push_all(out, shown.as_slice());
                    push_repeat(out, ' ', inner.saturating_sub(shown.len()));
                    out.push('\u{1b}');
                    out.push('[');
                    out.push('2');
                    out.push('2');
                    out.push('m');
                    proof {
                        assert(out@ =~= o + input_inside_styled(*self, inner as nat, text_style@));
                    }
                },
                InputState::Focused => {
                    push_all(out, text_style.as_slice());
                    out.push('\u{2588}');
                    push_repeat(out, ' ', inner.saturating_sub(1));
                    proof {
                        assert(out@ =~= o + input_inside_styled(*self, inner as nat, text_style@));
                    }
                },
            }
        } else {
            match self.state {
                InputState::Focused => {
                    self.push_value_with_cursor(out, &value, inner, text_style);
                },
                InputState::Idle => {
                    let mut shown: Vec<char> = Vec::new();
                    push_prefix(&mut shown, value.as_slice(), inner);
                    push_all(out, text_style.as_slice());
                    push_all(out, shown.as_slice());
                    push_repeat(out, ' ', inner.saturating_sub(shown.len()));
                    proof {
                        assert(out@ =~= o + input_inside_styled(*self, inner as nat, text_style@));
                    }
                },
            }
        }
    }

    /// The text `print` writes: the field's rows with their colors (see `input_styled`).
    pub fn styled(&self, width: usize) -> (r: String)
        ensures
            r@ == input_styled(*self, width as nat),
    {
        let inner = width.saturating_sub(2);
        let (fg, bg, border) = match self.state {
            InputState::Idle => (self.fg_idle, self.bg_idle, self.border_idle),
            InputState::Focused => (self.fg_focus, self.bg_focus, self.border_focus),
        };
        let mut border_style: Vec<char> = Vec::new();
        push_rgb(&mut border_style, '3', border);
        push_rgb(&mut border_style, '4', bg);
        let mut text_style: Vec<char> = Vec::new();
        push_rgb(&mut text_style, '3', fg);
        push_rgb(&mut text_style, '4', bg);
        let mut out: Vec<char> = Vec::new();
        push_edge(&mut out, &border_style, '\u{250c}', '\u{2500}', inner, '\u{2510}');
        let ghost a = out@;
        push_all(&mut out, border_style.as_slice());
        out.push('\u{2502}');
        self.push_inside(&mut out, inner, &text_style);
        push_all(&mut out, border_style.as_slice());
        out.push('\u{2502}');
        push_sgr(&mut out, '0');
        out.push('\n');
        let ghost b = out@;
        push_edge(&mut out, &border_style, '\u{2514}', '\u{2500}', inner, '\u{2518}');
        proof {
            assert(b =~= a + (border_style@ + seq!['\u{2502}'] + input_inside_styled(*self, inner as nat, text_style@)
                + border_style@ + seq!['\u{2502}'] + esc_reset() + seq!['\n']));
        }
        chars_to_string(&out)
    }
}

/// A field rendered `width >= 2` columns wide is three lines of exactly
/// `width` characters: the top border, the side borders around the first
/// `m` characters of the shown text (`m` the smaller of its length and the
/// inside width) padded with spaces, and the bottom border.
pub proof fn law_input_render_rows(t: TextInput, width: nat)
    requires
        width >= 2,
    ensures
        ({
            let inner = (width - 2) as nat;
            let s = shown_text(t);
            let m = if s.len() <= inner { s.len() } else { inner };
            let top = seq!['\u{250c}'] + repeat_char('\u{2500}', inner) + seq!['\u{2510}'];
            let mid = seq!['\u{2502}'] + s.take(m as int) + repeat_char(' ', (inner - m) as nat) + seq!['\u{2502}'];
            let bot = seq!['\u{2514}'] + repeat_char('\u{2500}', inner) + seq!['\u{2518}'];
            &&& join_lines(input_lines(t, width)) == top + seq!['\n'] + mid + seq!['\n'] + bot
            &&& top.len() == width && mid.len() == width && bot.len() == width
        }),
{
    let inner = (width - 2) as nat;
    let s = shown_text(t);
    let m = if s.len() <= inner { s.len() } else { inner };
    let ls = input_lines(t, width);
    assert(take_chars(s, inner) =~= s.take(m as int));
    assert(ls.drop_last().drop_last() =~= seq![ls[0]]);
    assert(ls.drop_last() =~= seq![ls[0], ls[1]]);
    assert(join_lines(ls.drop_last()) == join_lines(ls.drop_last().drop_last()) + seq!['\n'] + ls[1]);
}

} // verus!
