use vstd::prelude::*;

use crate::ui::ansi::{esc_reset, esc_rgb, esc_sgr, push_all, push_rgb, push_sgr};
use crate::text::{
    append_line, char_utf8_width, chars_to_string, join_lines, lemma_utf8_len_skip_mono, lemma_utf8_len_split,
    lemma_utf8_len_take_mono, lemma_utf8_len_take_step, push_chars, push_repeat, repeat_char,
    sat_sub, split_lines, str_chars, text_lines, utf8_len,
};

verus! {

/// Visual state for standalone button rendering.
#[derive(Clone, Copy, PartialEq, Eq, Structural)]
pub enum ButtonState {
    Idle,
    Focused,
    Pressed,
}

/// Standalone button display component.
pub struct Button {
    pub label: String,
    pub state: ButtonState,
    pub fg_idle: (u8, u8, u8),
    pub bg_idle: (u8, u8, u8),
    pub fg_focus: (u8, u8, u8),
    pub bg_focus: (u8, u8, u8),
    pub fg_press: (u8, u8, u8),
    pub bg_press: (u8, u8, u8),
    pub border_idle: (u8, u8, u8),
    pub border_focus: (u8, u8, u8),
    pub border_press: (u8, u8, u8),
    pub height: usize,
}

/// Corners (top-left, top-right, bottom-left, bottom-right): square when idle, rounded otherwise.
pub open spec fn button_corners(s: ButtonState) -> (char, char, char, char) {
    match s {
        ButtonState::Idle => ('\u{250c}', '\u{2510}', '\u{2514}', '\u{2518}'),
        _ => ('\u{256d}', '\u{256e}', '\u{2570}', '\u{256f}'),
    }
}

/// Marker put before the label: a triangle when focused, a bullet when pressed.
pub open spec fn button_prefix(s: ButtonState) -> Seq<char> {
    match s {
        ButtonState::Focused => seq!['\u{25b8}', ' '],
        ButtonState::Pressed => seq!['\u{2022}', ' '],
        ButtonState::Idle => Seq::empty(),
    }
}

/// The lines of a button `width` columns wide: a top border, blank rows,
/// the centered label row (odd padding on the right), blank rows, a bottom
/// border. With h = height, (h - 1) / 2 rows lie above the label (counting
/// the top border) and the rest of h - 1 below it (counting the bottom border).
pub open spec fn button_lines(b: Button, width: nat) -> Seq<Seq<char>> {
    let inner = sat_sub(width, 2);
    let (tl, tr, bl, br) = button_corners(b.state);
    let label_row = button_label_row(b, inner);
    let top = seq![tl] + repeat_char('\u{2500}', inner) + seq![tr];
    let bottom = seq![bl] + repeat_char('\u{2500}', inner) + seq![br];
    let empty_row = seq!['\u{2502}'] + repeat_char(' ', inner) + seq!['\u{2502}'];
    let above = sat_sub(b.height as nat, 1) / 2;
    let below = sat_sub(sat_sub(b.height as nat, 1), above);
    seq![top] + Seq::new(sat_sub(above, 1), |i: int| empty_row) + seq![label_row] + Seq::new(
        sat_sub(below, 1),
        |i: int| empty_row,
    ) + seq![bottom]
}

/// The label row of a button with `inner` columns between its borders.
pub open spec fn button_label_row(b: Button, inner: nat) -> Seq<char> {
    let display = button_prefix(b.state) + b.label@;
    let pad_total = sat_sub(inner, display.len());
    let pad_left = pad_total / 2;
    let pad_right = (pad_total - pad_left) as nat;
    seq!['\u{2502}'] + repeat_char(' ', pad_left) + display + repeat_char(' ', pad_right) + seq!['\u{2502}']
}


/// The (label, background, border) colors of a button in its state.
pub open spec fn button_palette(b: Button) -> ((u8, u8, u8), (u8, u8, u8), (u8, u8, u8)) {
    match b.state {
        ButtonState::Idle => (b.fg_idle, b.bg_idle, b.border_idle),
        ButtonState::Focused => (b.fg_focus, b.bg_focus, b.border_focus),
        ButtonState::Pressed => (b.fg_press, b.bg_press, b.border_press),
    }
}

/// A border line as printed: in the border color on the background.
pub open spec fn button_edge_styled(b: Button, line: Seq<char>) -> Seq<char> {
    let (fg, bg, border) = button_palette(b);
    esc_rgb('3', border) + esc_rgb('4', bg) + line + esc_reset() + seq!['\n']
}

/// Whether a printed row can be cut as `print` cuts it: its first three
/// bytes and its last three bytes are whole characters, and they do not overlap.
pub open spec fn row_cuttable(t: Seq<char>) -> bool {
    &&& exists|k: int| 0 <= k <= t.len() && utf8_len(t.take(k)) == 3
    &&& exists|k: int| 0 <= k <= t.len() && utf8_len(t.skip(k)) == 3
    &&& head3(t) <= tail3(t)
}

/// Where the first three bytes of `t` end.
pub open spec fn head3(t: Seq<char>) -> int {
    choose|k: int| 0 <= k <= t.len() && utf8_len(t.take(k)) == 3
}

/// Where the last three bytes of `t` begin.
pub open spec fn tail3(t: Seq<char>) -> int {
    choose|k: int| 0 <= k <= t.len() && utf8_len(t.skip(k)) == 3
}

/// A row without its first and last three bytes (a side border each, in a
/// row that has them).
pub open spec fn row_inside(t: Seq<char>) -> Seq<char> {
    t.subrange(head3(t), tail3(t))
}

/// A row between the borders as printed, given its inside: side borders in
/// the border color, the inside in the label color (bold unless idle), on the
/// background.
pub open spec fn button_row_styled(b: Button, inside: Seq<char>) -> Seq<char> {
    let (fg, bg, border) = button_palette(b);
    esc_rgb('3', border) + esc_rgb('4', bg) + seq!['\u{2502}'] + (if b.state == ButtonState::Idle {
        seq![]
    } else {
        esc_sgr(seq!['1'])
    }) + esc_rgb('3', fg) + esc_rgb('4', bg) + inside + esc_rgb('3', border) + seq!['\u{2502}'] + esc_reset()
        + seq!['\n']
}

/// The lines `print` goes through: those of the rendered text, as
/// `str::lines` splits it (a line break in the label splits its row).
pub open spec fn button_printed_lines(b: Button, width: nat) -> Seq<Seq<char>> {
    text_lines(join_lines(button_lines(b, width)))
}

/// Line `i` of `n` as printed: the first and last as borders, the others as
/// rows cut at their first and last three bytes.
pub open spec fn button_line_styled(b: Button, line: Seq<char>, i: int, n: int) -> Seq<char> {
    if i == 0 || i == n - 1 {
        button_edge_styled(b, line)
    } else {
        button_row_styled(b, row_inside(line))
    }
}

/// The first `k` lines of `ls`, each as printed.
pub open spec fn styled_lines(b: Button, ls: Seq<Seq<char>>, k: int) -> Seq<char>
    decreases k,
{
    if k <= 0 {
        seq![]
    } else {
        styled_lines(b, ls, k - 1) + button_line_styled(b, ls[k - 1], k - 1, ls.len() as int)
    }
}

/// What a button prints: each printed line styled, on a line of its own.
pub open spec fn button_styled(b: Button, width: nat) -> Seq<char> {
    let ls = button_printed_lines(b, width);
    styled_lines(b, ls, ls.len() as int)
}

/// Whether `print` can cut every row between the borders (see `row_cuttable`).
pub open spec fn button_printable(b: Button, width: nat) -> bool {
    let ls = button_printed_lines(b, width);
    forall|i: int| 0 < i < ls.len() - 1 ==> row_cuttable(#[trigger] ls[i])
}

/// Where the first three bytes of `line` end, when that is between characters.
fn head_cut(line: &Vec<char>) -> (r: Option<usize>)
    ensures
        r is Some <==> exists|k: int| 0 <= k <= line@.len() && utf8_len(line@.take(k)) == 3,
        r matches Some(k) ==> k == head3(line@),
{
    let ghost t = line@;
    let n = line.len();
    let mut k: usize = 0;
    let mut acc: usize = 0;
    proof {
        assert(t.take(0) =~= Seq::<char>::empty());
    }
    while acc < 3 && k < n
        invariant
            line@ == t,
            n == t.len(),
            0 <= k <= n,
            acc == utf8_len(t.take(k as int)),
            acc <= 6,
            forall|i: int| 0 <= i < k ==> #[trigger] utf8_len(t.take(i)) < 3,
        decreases n - k,
    {
        proof {
            lemma_utf8_len_take_step(t, k as int);
            assert forall|i: int| 0 <= i < k + 1 implies #[trigger] utf8_len(t.take(i)) < 3 by {
                if i < k {
                    lemma_utf8_len_take_mono(t, i, k as int);
                }
            }
        }
        acc = acc + char_utf8_width(line[k]);
        k = k + 1;
    }
    if acc == 3 {
        proof {
            let h = head3(t);
            if h < k {
                assert(utf8_len(t.take(h)) < 3);
            } else if h > k {
                lemma_utf8_len_take_mono(t, k as int, h);
            }
        }
        Some(k)
    } else {
        proof {
            assert forall|i: int| 0 <= i <= t.len() implies utf8_len(#[trigger] t.take(i)) != 3 by {
                if i > k {
                    lemma_utf8_len_take_mono(t, k as int, i);
                }
                if i == k && k == n {
                    assert(acc != 3);
                }
            }
        }
        None
    }
}

/// Where the last three bytes of `line` begin, when that is between characters.
fn tail_cut(line: &Vec<char>) -> (r: Option<usize>)
    ensures
        r is Some <==> exists|k: int| 0 <= k <= line@.len() && utf8_len(line@.skip(k)) == 3,
        r matches Some(k) ==> k == tail3(line@),
{
    let ghost t = line@;
    let n = line.len();
    let mut j: usize = n;
    let mut acc: usize = 0;
    proof {
        assert(t.skip(n as int) =~= Seq::<char>::empty());
    }
    while acc < 3 && j > 0
        invariant
            line@ == t,
            n == t.len(),
            0 <= j <= n,
            acc == utf8_len(t.skip(j as int)),
            acc <= 6,
            forall|i: int| j < i <= n ==> #[trigger] utf8_len(t.skip(i)) < 3,
        decreases j,
    {
        proof {
            lemma_utf8_len_split(t, j - 1);
            lemma_utf8_len_split(t, j as int);
            lemma_utf8_len_take_step(t, j - 1);
            assert forall|i: int| j - 1 < i <= n implies #[trigger] utf8_len(t.skip(i)) < 3 by {
                if i > j {
                    lemma_utf8_len_skip_mono(t, j as int, i);
                }
            }
        }
        j = j - 1;
        acc = acc + char_utf8_width(line[j]);
    }
    if acc == 3 {
        proof {
            let e = tail3(t);
            if e > j {
                assert(utf8_len(t.skip(e)) < 3);
            } else if e < j {
                lemma_utf8_len_skip_mono(t, e, j as int);
            }
        }
        Some(j)
    } else {
        proof {
            assert forall|i: int| 0 <= i <= t.len() implies utf8_len(#[trigger] t.skip(i)) != 3 by {
                if i < j {
                    lemma_utf8_len_skip_mono(t, i, j as int);
                }
            }
        }
        None
    }
}

/// Whether a row can be cut as `print` cuts it (see `row_cuttable`).
fn row_cut_ok(line: &Vec<char>) -> (r: bool)
    ensures
        r == row_cuttable(line@),
{
    match head_cut(line) {
        None => false,
        Some(k) => match tail_cut(line) {
            None => false,
            Some(j) => k <= j,
        },
    }
}

/// The inside of a row (see `row_inside`).
fn row_inside_of(line: &Vec<char>) -> (r: Vec<char>)
    requires
        row_cuttable(line@),
    ensures
        r@ == row_inside(line@),
{
    let ghost t = line@;
    let k = match head_cut(line) {
        Some(k) => k,
        None => {
            return Vec::new();
        },
    };
    let j = match tail_cut(line) {
        Some(j) => j,
        None => {
            return Vec::new();
        },
    };
    let mut r: Vec<char> = Vec::new();
    let mut i: usize = k;
    while i < j
        invariant
            line@ == t,
            k <= i <= j <= t.len(),
            r@ == t.subrange(k as int, i as int),
        decreases j - i,
    {
        r.push(line[i]);
        proof {
            assert(t.subrange(k as int, i + 1) =~= t.subrange(k as int, i as int).push(t[i as int]));
        }
        i = i + 1;
    }
    r
}

fn box_row(left: char, fill: char, n: usize, right: char) -> (r: Vec<char>)
    ensures
        r@ == seq![left] + repeat_char(fill, n as nat) + seq![right],
{
    let mut r: Vec<char> = Vec::new();
    r.push(left);
    push_repeat(&mut r, fill, n);
    r.push(right);
    proof {
        assert(r@ =~= seq![left] + repeat_char(fill, n as nat) + seq![right]);
    }
    r
}

/// Appends `count` copies of `line` as further lines.
fn append_lines(out: &mut Vec<char>, line: &Vec<char>, count: usize, Ghost(ls): Ghost<Seq<Seq<char>>>)
    requires
        old(out)@ == join_lines(ls),
        ls.len() > 0,
    ensures
        final(out)@ == join_lines(ls + Seq::new(count as nat, |i: int| line@)),
{
    let mut i: usize = 0;
    while i < count
        invariant
            0 <= i <= count,
            ls.len() > 0,
            out@ == join_lines(ls + Seq::new(i as nat, |k: int| line@)),
        decreases count - i,
    {
        let ghost cur = ls + Seq::new(i as nat, |k: int| line@);
        append_line(out, line.as_slice(), false, Ghost(cur));
        proof {
            assert(cur.push(line@) =~= ls + Seq::new((i + 1) as nat, |k: int| line@));
        }
        i = i + 1;
    }
}

impl Button {
    pub fn new(label: &str) -> (b: Self)
        ensures
            b.label@ == label@,
            b.state == ButtonState::Idle,
            b.fg_idle == (170u8, 170u8, 185u8),
            b.bg_idle == (45u8, 45u8, 58u8),
            b.fg_focus == (230u8, 235u8, 255u8),
            b.bg_focus == (50u8, 80u8, 160u8),
            b.fg_press == (240u8, 255u8, 240u8),
            b.bg_press == (40u8, 160u8, 80u8),
            b.border_idle == (70u8, 70u8, 90u8),
            b.border_focus == (90u8, 130u8, 220u8),
            b.border_press == (60u8, 200u8, 110u8),
            b.height == 3,
    {
        Button {
            label: String::from_str(label),
            state: ButtonState::Idle,
            fg_idle: (170, 170, 185),
            bg_idle: (45, 45, 58),
            fg_focus: (230, 235, 255),
            bg_focus: (50, 80, 160),
            fg_press: (240, 255, 240),
            bg_press: (40, 160, 80),
            border_idle: (70, 70, 90),
            border_focus: (90, 130, 220),
            border_press: (60, 200, 110),
            height: 3,
        }
    }

    pub fn with_state(self, state: ButtonState) -> (b: Self)
        ensures
            b == (Button { state, ..self }),
    {
        let mut s = self;
        s.state = state;
        s
    }

    pub fn focused(self) -> (b: Self)
        ensures
            b == (Button { state: ButtonState::Focused, ..self }),
    {
        self.with_state(ButtonState::Focused)
    }

    pub fn pressed(self) -> (b: Self)
        ensures
            b == (Button { state: ButtonState::Pressed, ..self }),
    {
        self.with_state(ButtonState::Pressed)
    }

    pub fn with_height(self, h: usize) -> (b: Self)
        ensures
            b == (Button { height: h, ..self }),
    {
        let mut s = self;
        s.height = h;
        s
    }

    fn label_row(&self, inner: usize) -> (r: Vec<char>)
        ensures
            r@ == button_label_row(*self, inner as nat),
    {
        let mut display: Vec<char> = Vec::new();
        match self.state {
            ButtonState::Focused => {
                display.push('\u{25b8}');
                display.push(' ');
            },
            ButtonState::Pressed => {
                display.push('\u{2022}');
                display.push(' ');
            },
            ButtonState::Idle => {},
        }
        let label = str_chars(self.label.as_str());
        push_chars(&mut display, label.as_slice());
        proof {
            assert(display@ =~= button_prefix(self.state) + self.label@);
        }
        let display_width = display.len();
        let pad_total = inner.saturating_sub(display_width);
        let pad_left = pad_total / 2;
        let pad_right = pad_total - pad_left;
        let mut label_row: Vec<char> = Vec::new();
        label_row.push('\u{2502}');
        push_repeat(&mut label_row, ' ', pad_left);
        push_chars(&mut label_row, display.as_slice());
        push_repeat(&mut label_row, ' ', pad_right);
        label_row.push('\u{2502}');
        proof {
            assert(label_row@ =~= button_label_row(*self, inner as nat));
        }
        label_row
    }

    /// Render this button to a multi-line string for standalone use.
    pub fn render(&self, width: usize) -> (r: String)
        ensures
            r@ == join_lines(button_lines(*self, width as nat)),
    {
        let out = self.render_chars(width);
        chars_to_string(&out)
    }

    fn render_chars(&self, width: usize) -> (r: Vec<char>)
        ensures
            r@ == join_lines(button_lines(*self, width as nat)),
    {
        let inner = width.saturating_sub(2);
        let (tl, tr, bl, br) = match self.state {
            ButtonState::Idle => ('\u{250c}', '\u{2510}', '\u{2514}', '\u{2518}'),
            _ => ('\u{256d}', '\u{256e}', '\u{2570}', '\u{256f}'),
        };
        let label_row = self.label_row(inner);
        let top = box_row(tl, '\u{2500}', inner, tr);
        let bottom = box_row(bl, '\u{2500}', inner, br);
        let empty_row = box_row('\u{2502}', ' ', inner, '\u{2502}');
        let blank_above = (self.height.saturating_sub(1)) / 2;
        let blank_below = self.height.saturating_sub(1).saturating_sub(blank_above);
        let ghost lines = button_lines(*self, width as nat);
        let ghost ls0: Seq<Seq<char>> = Seq::empty();
        let mut out: Vec<char> = Vec::new();
        append_line(&mut out, top.as_slice(), true, Ghost(ls0));
        let ghost ls1 = ls0.push(top@);
        append_lines(&mut out, &empty_row, blank_above.saturating_sub(1), Ghost(ls1));
        let ghost ls2 = ls1 + Seq::new(blank_above.saturating_sub(1) as nat, |i: int| empty_row@);
        append_line(&mut out, label_row.as_slice(), false, Ghost(ls2));
        let ghost ls3 = ls2.push(label_row@);
        append_lines(&mut out, &empty_row, blank_below.saturating_sub(1), Ghost(ls3));
        let ghost ls4 = ls3 + Seq::new(blank_below.saturating_sub(1) as nat, |i: int| empty_row@);
        append_line(&mut out, bottom.as_slice(), false, Ghost(ls4));
        proof {
            assert(ls4.push(bottom@) =~= lines);
        }
        out
    }

    fn push_edge(&self, out: &mut Vec<char>, line: &Vec<char>)
        ensures
            final(out)@ == old(out)@ + button_edge_styled(*self, line@),
    {
        let (fg, bg, border) = self.palette();
        let ghost o = out@;
        push_rgb(out, '3', border);
        push_rgb(out, '4', bg);
        push_all(out, line.as_slice());
        push_sgr(out, '0');
        out.push('\n');
        proof {
            assert(out@ =~= o + button_edge_styled(*self, line@));
        }
    }

    fn push_row(&self, out: &mut Vec<char>, inside: &Vec<char>)
        ensures
            final(out)@ == old(out)@ + button_row_styled(*self, inside@),
    {
        let (fg, bg, border) = self.palette();
        let ghost o = out@;
        push_rgb(out, '3', border);
        push_rgb(out, '4', bg);
        out.push('\u{2502}');
        match self.state {
            ButtonState::Idle => {},
            _ => push_sgr(out, '1'),
        }
        push_rgb(out, '3', fg);
        push_rgb(out, '4', bg);
        push_all(out, inside.as_slice());
        push_rgb(out, '3', border);
        out.push('\u{2502}');
        push_sgr(out, '0');
        out.push('\n');
        proof {
            assert(out@ =~= o + button_row_styled(*self, inside@));
        }
    }

    fn palette(&self) -> (r: ((u8, u8, u8), (u8, u8, u8), (u8, u8, u8)))
        ensures
            r == button_palette(*self),
    {
        match self.state {
            ButtonState::Idle => (self.fg_idle, self.bg_idle, self.border_idle),
            ButtonState::Focused => (self.fg_focus, self.bg_focus, self.border_focus),
            ButtonState::Pressed => (self.fg_press, self.bg_press, self.border_press),
        }
    }

    /// Whether `print` can cut every row between the borders (see `button_printable`).
    pub fn printable(&self, width: usize) -> (r: bool)
        ensures
            r == button_printable(*self, width as nat),
    {
        let text = self.render_chars(width);
        let lines = split_lines(text.as_slice());
        let ghost ls = button_printed_lines(*self, width as nat);
        let n = lines.len();
        if n < 2 {
            return true;
        }
        let mut i: usize = 1;
        while i < n - 1
            invariant
                n == ls.len(),
                n >= 2,
                lines@.len() == ls.len(),
                forall|j: int| 0 <= j < lines@.len() ==> #[trigger] lines@[j]@ == ls[j],
                ls == button_printed_lines(*self, width as nat),
                1 <= i <= n - 1,
                forall|j: int| 0 < j < i && j < n - 1 ==> row_cuttable(#[trigger] ls[j]),
            decreases n - i,
        {
            if !row_cut_ok(&lines[i]) {
                proof {
                    assert(lines@[i as int]@ == ls[i as int]);
                    assert(!row_cuttable(ls[i as int]));
                }
                return false;
            }
            proof {
                assert(lines@[i as int]@ == ls[i as int]);
            }
            i = i + 1;
        }
        true
    }

    /// The text `print` writes: each line of the rendered text (split as
    /// `str::lines` splits it) styled, the first and last as borders, the
    /// others cut at their first and last three bytes (see `button_styled`).
    /// Every row between must allow that cut.
    pub fn styled(&self, width: usize) -> (r: String)
        requires
            button_printable(*self, width as nat),
        ensures
            r@ == button_styled(*self, width as nat),
    {
        let text = self.render_chars(width);
        let lines = split_lines(text.as_slice());
        let ghost ls = button_printed_lines(*self, width as nat);
        let n = lines.len();
        let mut out: Vec<char> = Vec::new();
        let mut i: usize = 0;
        while i < n
            invariant
                n == ls.len(),
                lines@.len() == ls.len(),
                forall|j: int| 0 <= j < lines@.len() ==> #[trigger] lines@[j]@ == ls[j],
                button_printable(*self, width as nat),
                ls == button_printed_lines(*self, width as nat),
                0 <= i <= n,
                out@ == styled_lines(*self, ls, i as int),
            decreases n - i,
        {
            let ghost before = out@;
            if i == 0 || i == n - 1 {
                self.push_edge(&mut out, &lines[i]);
            } else {
                proof {
                    assert(row_cuttable(ls[i as int]));
                }
                let inside = row_inside_of(&lines[i]);
                self.push_row(&mut out, &inside);
            }
            proof {
                assert(lines@[i as int]@ == ls[i as int]);
                assert(out@ == styled_lines(*self, ls, i + 1));
            }
            i = i + 1;
        }
        chars_to_string(&out)
    }
}

/// A button rendered `width >= 2` columns wide, whose marker and label fit
/// inside, has as many lines as its height (at least three), each exactly
/// `width` characters: the top border, then blank rows, the label row at
/// line `max((height - 1) / 2, 1)` with the marker and label centered (odd
/// padding on the right), blank rows, and the bottom border.
pub proof fn law_button_render_rows(b: Button, width: nat)
    requires
        width >= 2,
        button_prefix(b.state).len() + b.label@.len() <= width - 2,
    ensures
        ({
            let ls = button_lines(b, width);
            let inner = (width - 2) as nat;
            let (tl, tr, bl, br) = button_corners(b.state);
            let display = button_prefix(b.state) + b.label@;
            let pad_left = ((inner - display.len()) / 2) as nat;
            let pad_right = (inner - display.len() - pad_left) as nat;
            let above = sat_sub(b.height as nat, 1) / 2;
            let at = if above >= 1 { above as int } else { 1int };
            &&& ls.len() == if b.height >= 3 { b.height as int } else { 3int }
            &&& forall|i: int| 0 <= i < ls.len() ==> #[trigger] ls[i].len() == width
            &&& ls[0] == seq![tl] + repeat_char('\u{2500}', inner) + seq![tr]
            &&& ls[ls.len() - 1] == seq![bl] + repeat_char('\u{2500}', inner) + seq![br]
            &&& ls[at] == seq!['\u{2502}'] + repeat_char(' ', pad_left) + display + repeat_char(' ', pad_right) + seq![
                '\u{2502}',
            ]
            &&& forall|i: int| 0 < i < ls.len() - 1 && i != at ==> #[trigger] ls[i] == seq!['\u{2502}'] + repeat_char(
                ' ',
                inner,
            ) + seq!['\u{2502}']
        }),
{
    let ls = button_lines(b, width);
    let inner = sat_sub(width, 2);
    let (tl, tr, bl, br) = button_corners(b.state);
    let label_row = button_label_row(b, inner);
    let top = seq![tl] + repeat_char('\u{2500}', inner) + seq![tr];
    let bottom = seq![bl] + repeat_char('\u{2500}', inner) + seq![br];
    let empty_row = seq!['\u{2502}'] + repeat_char(' ', inner) + seq!['\u{2502}'];
    let above = sat_sub(b.height as nat, 1) / 2;
    let below = sat_sub(sat_sub(b.height as nat, 1), above);
    let xa = Seq::new(sat_sub(above, 1), |i: int| empty_row);
    let xb = Seq::new(sat_sub(below, 1), |i: int| empty_row);
    let p1 = seq![top] + xa;
    let p2 = p1 + seq![label_row];
    let p3 = p2 + xb;
    assert(ls == p3 + seq![bottom]);
    let at = if above >= 1 { above as int } else { 1int };
    assert(at == p1.len());
    assert(ls[at] == label_row);
    assert(ls[0] == top);
    assert(ls[ls.len() - 1] == bottom);
    assert forall|i: int| 0 < i < ls.len() - 1 && i != at implies #[trigger] ls[i] == empty_row by {
        if i < at {
            assert(ls[i] == p1[i]);
            assert(p1[i] == xa[i - 1]);
        } else {
            assert(ls[i] == p3[i]);
            assert(p3[i] == xb[i - p2.len()]);
        }
    }
    assert forall|i: int| 0 <= i < ls.len() implies #[trigger] ls[i].len() == width by {
        if i == 0 || i == ls.len() - 1 || i == at {
        } else {
            assert(ls[i] == empty_row);
        }
    }
}

} // verus!
