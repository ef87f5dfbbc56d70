//! Drawing of UI nodes onto the terminal framebuffer.
//!
//! Each drawing function is specified by the list of framebuffer operations
//! it performs, run by `run_draws`.
use vstd::prelude::*;

use crate::base::node::{BorderStyle, Interaction, ProgressStyle, Rect, SpinnerStyle, Style, TextAlign};
use crate::term::{
    ATTR_BOLD,
    ATTR_DIM,
    ATTR_ITALIC,
    ATTR_STRIKETHROUGH,
    ATTR_UNDERLINE,
    Term,
    TermView,
    spec_print,
    spec_put,
};
use crate::text::{digits, push_digits, push_prefix, push_repeat, repeat_char, str_chars, take_chars};
use crate::ui::panel::{border_chars, spec_border_chars};
use crate::ui::spinner::{frames_for, spec_frames};
use crate::ui::theme::Theme;

verus! {

/// One drawing operation on the framebuffer.
pub enum Draw {
    /// Move the cursor to (column, row).
    Move(u16, u16),
    /// Set the foreground color.
    Fg((u8, u8, u8)),
    /// Set the background color.
    Bg((u8, u8, u8)),
    /// Add attribute bits.
    Attr(u8),
    /// Print characters at the cursor.
    Text(Seq<char>),
    /// Back to white on black with no attributes.
    Reset,
    /// Restrict drawing to a rectangle, or lift the restriction.
    Clip(Option<(u16, u16, u16, u16)>),
}

/// The framebuffer after one operation.
pub open spec fn draw_step(v: TermView, d: Draw) -> TermView {
    match d {
        Draw::Move(c, r) => TermView { cx: c, cy: r, ..v },
        Draw::Fg(c) => TermView { fg: c, ..v },
        Draw::Bg(c) => TermView { bg: c, ..v },
        Draw::Attr(a) => TermView { attrs: v.attrs | a, ..v },
        Draw::Text(cs) => spec_print(v, cs),
        Draw::Reset => TermView { fg: (255, 255, 255), bg: (0, 0, 0), attrs: 0, ..v },
        Draw::Clip(c) => TermView { clip: c, ..v },
    }
}

/// The framebuffer after each operation of `ds` in turn.
#[verifier::opaque]
pub open spec fn run_draws(v: TermView, ds: Seq<Draw>) -> TermView
    decreases ds.len(),
{
    if ds.len() == 0 {
        v
    } else {
        draw_step(run_draws(v, ds.drop_last()), ds.last())
    }
}

pub proof fn lemma_run_push(v: TermView, ds: Seq<Draw>, d: Draw)
    ensures
        run_draws(v, ds.push(d)) == draw_step(run_draws(v, ds), d),
{
    reveal(run_draws);
    assert(ds.push(d).drop_last() =~= ds);
}

pub proof fn lemma_run_empty(v: TermView)
    ensures
        run_draws(v, Seq::<Draw>::empty()) == v,
{
    reveal(run_draws);
}

/// Running two lists of operations one after the other runs their concatenation.
pub proof fn lemma_run_concat(v: TermView, a: Seq<Draw>, b: Seq<Draw>)
    ensures
        run_draws(v, a + b) == run_draws(run_draws(v, a), b),
    decreases b.len(),
{
    reveal(run_draws);
    if b.len() == 0 {
        assert(a + b =~= a);
    } else {
        lemma_run_concat(v, a, b.drop_last());
        assert((a + b).drop_last() =~= a + b.drop_last());
        assert((a + b).last() == b.last());
    }
}

/// `n` spaces.
pub open spec fn spaces(n: nat) -> Seq<char> {
    repeat_char(' ', n)
}

/// The attribute operations of a style: bold, dim, italic, underline and
/// strikethrough, in that order, for those that are set.
pub open spec fn attr_draws(s: Style) -> Seq<Draw> {
    (if s.bold { seq![Draw::Attr(ATTR_BOLD)] } else { seq![] }) + (if s.dim {
        seq![Draw::Attr(ATTR_DIM)]
    } else {
        seq![]
    }) + (if s.italic { seq![Draw::Attr(ATTR_ITALIC)] } else { seq![] }) + (if s.underline {
        seq![Draw::Attr(ATTR_UNDERLINE)]
    } else {
        seq![]
    }) + (if s.strikethrough { seq![Draw::Attr(ATTR_STRIKETHROUGH)] } else { seq![] })
}

fn attr_step(term: &mut Term, on: bool, bit: u8, Ghost(v0): Ghost<TermView>, Ghost(ds): Ghost<Seq<Draw>>)
    requires
        old(term).wf(),
        old(term)@ == run_draws(v0, ds),
        bit == ATTR_BOLD || bit == ATTR_DIM || bit == ATTR_ITALIC || bit == ATTR_UNDERLINE || bit
            == ATTR_STRIKETHROUGH,
    ensures
        final(term).wf(),
        final(term)@ == run_draws(v0, ds + if on { seq![Draw::Attr(bit)] } else { seq![] }),
{
    if on {
        if bit == ATTR_BOLD {
            term.bold();
        } else if bit == ATTR_DIM {
            term.dim();
        } else if bit == ATTR_ITALIC {
            term.italic();
        } else if bit == ATTR_UNDERLINE {
            term.underline();
        } else {
            term.strikethrough();
        }
        proof {
            assert(ds + seq![Draw::Attr(bit)] =~= ds.push(Draw::Attr(bit)));
            lemma_run_push(v0, ds, Draw::Attr(bit));
        }
    } else {
        proof {
            assert(ds + seq![] =~= ds);
        }
    }
}

/// Turns on the attributes that the style sets.
pub fn apply_attrs(term: &mut Term, style: &Style)
    requires
        old(term).wf(),
    ensures
        final(term).wf(),
        final(term)@ == run_draws(old(term)@, attr_draws(*style)),
{
    let ghost v0 = term@;
    proof {
        lemma_run_empty(v0);
    }
    let ghost e: Seq<Draw> = seq![];
    let ghost p1 = if style.bold { seq![Draw::Attr(ATTR_BOLD)] } else { seq![] };
    let ghost p2 = if style.dim { seq![Draw::Attr(ATTR_DIM)] } else { seq![] };
    let ghost p3 = if style.italic { seq![Draw::Attr(ATTR_ITALIC)] } else { seq![] };
    let ghost p4 = if style.underline { seq![Draw::Attr(ATTR_UNDERLINE)] } else { seq![] };
    let ghost p5 = if style.strikethrough { seq![Draw::Attr(ATTR_STRIKETHROUGH)] } else { seq![] };
    attr_step(term, style.bold, ATTR_BOLD, Ghost(v0), Ghost(e));
    proof {
        assert(e + p1 =~= p1);
    }
    attr_step(term, style.dim, ATTR_DIM, Ghost(v0), Ghost(p1));
    attr_step(term, style.italic, ATTR_ITALIC, Ghost(v0), Ghost(p1 + p2));
    attr_step(term, style.underline, ATTR_UNDERLINE, Ghost(v0), Ghost(p1 + p2 + p3));
    attr_step(term, style.strikethrough, ATTR_STRIKETHROUGH, Ghost(v0), Ghost(p1 + p2 + p3 + p4));
}

// Single operations, each extending a list of operations already run.

fn op_move(term: &mut Term, x: u16, y: u16, Ghost(v0): Ghost<TermView>, Ghost(ds): Ghost<Seq<Draw>>)
    requires
        old(term).wf(),
        old(term)@ == run_draws(v0, ds),
    ensures
        final(term).wf(),
        final(term)@ == run_draws(v0, ds.push(Draw::Move(x, y))),
{
    term.move_to(x, y);
    proof {
        lemma_run_push(v0, ds, Draw::Move(x, y));
    }
}

fn op_fg(term: &mut Term, c: (u8, u8, u8), Ghost(v0): Ghost<TermView>, Ghost(ds): Ghost<Seq<Draw>>)
    requires
        old(term).wf(),
        old(term)@ == run_draws(v0, ds),
    ensures
        final(term).wf(),
        final(term)@ == run_draws(v0, ds.push(Draw::Fg(c))),
{
    term.fg_rgb(c.0, c.1, c.2);
    proof {
        lemma_run_push(v0, ds, Draw::Fg(c));
    }
}

fn op_bg(term: &mut Term, c: (u8, u8, u8), Ghost(v0): Ghost<TermView>, Ghost(ds): Ghost<Seq<Draw>>)
    requires
        old(term).wf(),
        old(term)@ == run_draws(v0, ds),
    ensures
        final(term).wf(),
        final(term)@ == run_draws(v0, ds.push(Draw::Bg(c))),
{
    term.bg_rgb(c.0, c.1, c.2);
    proof {
        lemma_run_push(v0, ds, Draw::Bg(c));
    }
}

fn op_bold(term: &mut Term, Ghost(v0): Ghost<TermView>, Ghost(ds): Ghost<Seq<Draw>>)
    requires
        old(term).wf(),
        old(term)@ == run_draws(v0, ds),
    ensures
        final(term).wf(),
        final(term)@ == run_draws(v0, ds.push(Draw::Attr(ATTR_BOLD))),
{
    term.bold();
    proof {
        lemma_run_push(v0, ds, Draw::Attr(ATTR_BOLD));
    }
}

fn op_dim(term: &mut Term, Ghost(v0): Ghost<TermView>, Ghost(ds): Ghost<Seq<Draw>>)
    requires
        old(term).wf(),
        old(term)@ == run_draws(v0, ds),
    ensures
        final(term).wf(),
        final(term)@ == run_draws(v0, ds.push(Draw::Attr(ATTR_DIM))),
{
    term.dim();
    proof {
        lemma_run_push(v0, ds, Draw::Attr(ATTR_DIM));
    }
}

fn op_reset(term: &mut Term, Ghost(v0): Ghost<TermView>, Ghost(ds): Ghost<Seq<Draw>>)
    requires
        old(term).wf(),
        old(term)@ == run_draws(v0, ds),
    ensures
        final(term).wf(),
        final(term)@ == run_draws(v0, ds.push(Draw::Reset)),
{
    term.reset();
    proof {
        lemma_run_push(v0, ds, Draw::Reset);
    }
}

fn op_text(term: &mut Term, line: &Vec<char>, Ghost(v0): Ghost<TermView>, Ghost(ds): Ghost<Seq<Draw>>)
    requires
        old(term).wf(),
        old(term)@ == run_draws(v0, ds),
    ensures
        final(term).wf(),
        final(term)@ == run_draws(v0, ds.push(Draw::Text(line@))),
{
    term.put_chars(line.as_slice());
    proof {
        lemma_run_push(v0, ds, Draw::Text(line@));
    }
}

/// `n` copies of `c`.
fn repeated(c: char, n: usize) -> (r: Vec<char>)
    ensures
        r@ == repeat_char(c, n as nat),
{
    let mut r: Vec<char> = Vec::new();
    push_repeat(&mut r, c, n);
    proof {
        assert(r@ =~= repeat_char(c, n as nat));
    }
    r
}

/// A style's color, or the theme's when it has none.
pub open spec fn color_or(c: Option<(u8, u8, u8)>, d: (u8, u8, u8)) -> (u8, u8, u8) {
    match c {
        Some(x) => x,
        None => d,
    }
}

/// The row of a text node: the text cut to the width, padded with spaces
/// on the right, on both sides (the extra space on the right) or on the left.
pub open spec fn text_row(text: Seq<char>, width: nat, align: TextAlign) -> Seq<char> {
    let t = take_chars(text, width);
    let pad = (width - t.len()) as nat;
    match align {
        TextAlign::Left => t + spaces(pad),
        TextAlign::Center => spaces(pad / 2) + t + spaces((pad - pad / 2) as nat),
        TextAlign::Right => spaces(pad) + t,
    }
}

/// The operations that draw a text node: colors from the style (else the
/// theme), its attributes, the row, then a reset.
pub open spec fn text_draws(r: Rect, text: Seq<char>, align: TextAlign, style: Style, theme: Theme) -> Seq<Draw> {
    seq![Draw::Move(r.x, r.y), Draw::Fg(color_or(style.fg, theme.fg)), Draw::Bg(color_or(style.bg, theme.bg))]
        + attr_draws(style) + seq![Draw::Text(text_row(text, r.width as nat, align)), Draw::Reset]
}

fn print_line(term: &mut Term, line: &Vec<char>, Ghost(v0): Ghost<TermView>, Ghost(ds): Ghost<Seq<Draw>>)
    requires
        old(term).wf(),
        old(term)@ == run_draws(v0, ds),
    ensures
        final(term).wf(),
        final(term)@ == run_draws(v0, ds.push(Draw::Text(line@))),
{
    term.put_chars(line.as_slice());
    proof {
        lemma_run_push(v0, ds, Draw::Text(line@));
    }
}

/// Draws a text node in its rectangle.
pub fn render_text(term: &mut Term, r: Rect, text: &str, align: TextAlign, style: &Style, theme: &Theme)
    requires
        old(term).wf(),
    ensures
        final(term).wf(),
        final(term)@ == run_draws(old(term)@, text_draws(r, text@, align, *style, *theme)),
{
    let ghost v0 = term@;
    proof {
        lemma_run_empty(v0);
    }
    let fg = match style.fg {
        Some(c) => c,
        None => theme.fg,
    };
    let bg = match style.bg {
        Some(c) => c,
        None => theme.bg,
    };
    term.move_to(r.x, r.y);
    proof {
        lemma_run_push(v0, seq![], Draw::Move(r.x, r.y));
        assert(seq![].push(Draw::Move(r.x, r.y)) =~= seq![Draw::Move(r.x, r.y)]);
    }
    term.fg_rgb(fg.0, fg.1, fg.2);
    proof {
        lemma_run_push(v0, seq![Draw::Move(r.x, r.y)], Draw::Fg(fg));
        assert(seq![Draw::Move(r.x, r.y)].push(Draw::Fg(fg)) =~= seq![Draw::Move(r.x, r.y), Draw::Fg(fg)]);
    }
    term.bg_rgb(bg.0, bg.1, bg.2);
    let ghost head = seq![Draw::Move(r.x, r.y), Draw::Fg(fg), Draw::Bg(bg)];
    proof {
        lemma_run_push(v0, seq![Draw::Move(r.x, r.y), Draw::Fg(fg)], Draw::Bg(bg));
        assert(seq![Draw::Move(r.x, r.y), Draw::Fg(fg)].push(Draw::Bg(bg)) =~= head);
    }
    let ghost v1 = term@;
    apply_attrs(term, style);
    proof {
        lemma_run_concat(v0, head, attr_draws(*style));
    }
    let ghost ds = head + attr_draws(*style);
    let w = r.width as usize;
    let cs = str_chars(text);
    let mut t: Vec<char> = Vec::new();
    push_prefix(&mut t, cs.as_slice(), w);
    let n = t.len();
    let pad = w - n;
    let mut line: Vec<char> = Vec::new();
    match align {
        TextAlign::Left => {
            push_prefix(&mut line, t.as_slice(), n);
            push_repeat(&mut line, ' ', pad);
        },
        TextAlign::Center => {
            push_repeat(&mut line, ' ', pad / 2);
            push_prefix(&mut line, t.as_slice(), n);
            push_repeat(&mut line, ' ', pad - pad / 2);
        },
        TextAlign::Right => {
            push_repeat(&mut line, ' ', pad);
            push_prefix(&mut line, t.as_slice(), n);
        },
    }
    proof {
        assert(t@ =~= take_chars(text@, w as nat));
        assert(take_chars(t@, n as nat) =~= t@);
        assert(line@ =~= text_row(text@, r.width as nat, align));
    }
    print_line(term, &line, Ghost(v0), Ghost(ds));
    term.reset();
    proof {
        lemma_run_push(v0, ds.push(Draw::Text(line@)), Draw::Reset);
        assert(ds.push(Draw::Text(line@)).push(Draw::Reset) =~= text_draws(r, text@, align, *style, *theme));
    }
}

/// The operations of rows `lo` to `hi - 1`, one row after the other.
pub open spec fn rows_draws(f: spec_fn(int) -> Seq<Draw>, lo: int, hi: int) -> Seq<Draw>
    decreases hi - lo,
{
    if hi <= lo {
        seq![]
    } else {
        rows_draws(f, lo, hi - 1) + f(hi - 1)
    }
}

// Buttons.

/// (label, background, border) colors of a button in an interaction state.
pub open spec fn button_colors(i: Interaction, t: Theme) -> ((u8, u8, u8), (u8, u8, u8), (u8, u8, u8)) {
    match i {
        Interaction::Pressed => (t.btn_fg_press, t.btn_bg_press, t.border_press),
        Interaction::Focused => (t.btn_fg_focus, t.btn_bg_focus, t.border_focus),
        Interaction::Idle => (t.btn_fg_idle, t.btn_bg_idle, t.border_idle),
    }
}

/// The frame of a button: rounded when focused or pressed, square when idle.
pub open spec fn button_frame(i: Interaction) -> (char, char, char, char, char, char) {
    match i {
        Interaction::Idle => ('\u{250C}', '\u{2510}', '\u{2514}', '\u{2518}', '\u{2500}', '\u{2502}'),
        _ => ('\u{256D}', '\u{256E}', '\u{2570}', '\u{256F}', '\u{2500}', '\u{2502}'),
    }
}

/// The label as shown: with a triangle when focused, a bullet when pressed,
/// each with a space on both sides and one after the label.
pub open spec fn shown_label(label: Seq<char>, i: Interaction) -> Seq<char> {
    match i {
        Interaction::Focused => seq![' ', '\u{25B8}', ' '] + label + seq![' '],
        Interaction::Pressed => seq![' ', '\u{2022}', ' '] + label + seq![' '],
        Interaction::Idle => label,
    }
}

/// The inside of the label row: the shown label cut to the width and
/// centered (the odd space on the right).
pub open spec fn centered(t: Seq<char>, inner: nat) -> Seq<char> {
    let c = take_chars(t, inner);
    let pad = (inner - c.len()) as nat;
    spaces(pad / 2) + c + spaces((pad - pad / 2) as nat)
}

/// The operations of middle row `row` of a button.
pub open spec fn button_row_draws(r: Rect, label: Seq<char>, i: Interaction, t: Theme, row: int) -> Seq<Draw> {
    let (fg, bg, border) = button_colors(i, t);
    let v = button_frame(i).5;
    let inner = (if r.width >= 2 { r.width - 2 } else { 0 }) as nat;
    let edge = seq![Draw::Fg(border), Draw::Bg(t.bg), Draw::Text(seq![v])];
    seq![Draw::Move(r.x, (r.y + row) as u16)] + edge + seq![Draw::Fg(fg), Draw::Bg(bg)] + (if row == r.height / 2 {
        if i == Interaction::Idle {
            seq![Draw::Text(centered(shown_label(label, i), inner))]
        } else {
            seq![Draw::Attr(ATTR_BOLD), Draw::Text(centered(shown_label(label, i), inner)), Draw::Reset]
        }
    } else {
        seq![Draw::Text(spaces(inner))]
    }) + edge
}

/// The operations that draw a button: the top border, the middle rows
/// (blank, but for the label on row height / 2), the bottom border.
pub open spec fn button_draws(r: Rect, label: Seq<char>, i: Interaction, t: Theme) -> Seq<Draw> {
    let (fg, bg, border) = button_colors(i, t);
    let (tl, tr, bl, br, h, v) = button_frame(i);
    let inner = (if r.width >= 2 { r.width - 2 } else { 0 }) as nat;
    let last = if r.height >= 1 { r.height - 1 } else { 0 };
    seq![Draw::Move(r.x, r.y), Draw::Fg(border), Draw::Bg(t.bg), Draw::Text(seq![tl] + repeat_char(h, inner) + seq![tr])]
        + rows_draws(|row: int| button_row_draws(r, label, i, t, row), 1, last)
        + seq![Draw::Move(r.x, (r.y + r.height - 1) as u16), Draw::Fg(border), Draw::Bg(t.bg), Draw::Text(seq![bl] + repeat_char(h, inner) + seq![br])]
}

fn border_line(l: char, h: char, n: usize, rc: char) -> (line: Vec<char>)
    ensures
        line@ == seq![l] + repeat_char(h, n as nat) + seq![rc],
{
    let mut line: Vec<char> = Vec::new();
    line.push(l);
    push_repeat(&mut line, h, n);
    line.push(rc);
    proof {
        assert(line@ =~= seq![l] + repeat_char(h, n as nat) + seq![rc]);
    }
    line
}

fn centered_line(t: &Vec<char>, inner: usize) -> (line: Vec<char>)
    ensures
        line@ == centered(t@, inner as nat),
{
    let mut c: Vec<char> = Vec::new();
    push_prefix(&mut c, t.as_slice(), inner);
    let n = c.len();
    let pad = inner - n;
    let mut line: Vec<char> = Vec::new();
    push_repeat(&mut line, ' ', pad / 2);
    push_prefix(&mut line, c.as_slice(), n);
    push_repeat(&mut line, ' ', pad - pad / 2);
    proof {
        assert(c@ =~= take_chars(t@, inner as nat));
        assert(take_chars(c@, n as nat) =~= c@);
        assert(line@ =~= centered(t@, inner as nat));
    }
    line
}

fn shown_label_chars(label: &str, i: Interaction) -> (r: Vec<char>)
    ensures
        r@ == shown_label(label@, i),
{
    let cs = str_chars(label);
    let mut r: Vec<char> = Vec::new();
    match i {
        Interaction::Focused => {
            r.push(' ');
            r.push('\u{25B8}');
            r.push(' ');
            push_prefix(&mut r, cs.as_slice(), cs.len());
            r.push(' ');
        },
        Interaction::Pressed => {
            r.push(' ');
            r.push('\u{2022}');
            r.push(' ');
            push_prefix(&mut r, cs.as_slice(), cs.len());
            r.push(' ');
        },
        Interaction::Idle => {
            push_prefix(&mut r, cs.as_slice(), cs.len());
        },
    }
    proof {
        assert(take_chars(cs@, cs@.len()) =~= cs@);
        assert(r@ =~= shown_label(label@, i));
    }
    r
}

fn draw_button_row(
    term: &mut Term,
    r: Rect,
    interaction: Interaction,
    theme: &Theme,
    row: u16,
    text_row: u16,
    label_row: &Vec<char>,
    blank: &Vec<char>,
    vline: &Vec<char>,
    Ghost(label): Ghost<Seq<char>>,
    Ghost(v0): Ghost<TermView>,
    Ghost(before): Ghost<Seq<Draw>>,
)
    requires
        old(term).wf(),
        old(term)@ == run_draws(v0, before),
        r.y + row <= u16::MAX,
        text_row == r.height / 2,
        blank@ == spaces((if r.width >= 2 { r.width - 2 } else { 0 }) as nat),
        vline@ == seq![button_frame(interaction).5],
        label_row@ == centered(shown_label(label, interaction), (if r.width >= 2 { r.width - 2 } else { 0 }) as nat),
    ensures
        final(term).wf(),
        final(term)@ == run_draws(v0, before + button_row_draws(r, label, interaction, *theme, row as int)),
{
    let (fg, bg, border) = match interaction {
        Interaction::Pressed => (theme.btn_fg_press, theme.btn_bg_press, theme.border_press),
        Interaction::Focused => (theme.btn_fg_focus, theme.btn_bg_focus, theme.border_focus),
        Interaction::Idle => (theme.btn_fg_idle, theme.btn_bg_idle, theme.border_idle),
    };
    let ghost v = button_frame(interaction).5;
    let ghost mut d: Seq<Draw> = before;
    op_move(term, r.x, r.y + row, Ghost(v0), Ghost(d));
    proof { d = d.push(Draw::Move(r.x, (r.y + row) as u16)); }
    op_fg(term, border, Ghost(v0), Ghost(d));
    proof { d = d.push(Draw::Fg(border)); }
    op_bg(term, theme.bg, Ghost(v0), Ghost(d));
    proof { d = d.push(Draw::Bg(theme.bg)); }
    op_text(term, vline, Ghost(v0), Ghost(d));
    proof { d = d.push(Draw::Text(seq![v])); }
    op_fg(term, fg, Ghost(v0), Ghost(d));
    proof { d = d.push(Draw::Fg(fg)); }
    op_bg(term, bg, Ghost(v0), Ghost(d));
    proof { d = d.push(Draw::Bg(bg)); }
    if row == text_row {
        match interaction {
            Interaction::Idle => {
                op_text(term, label_row, Ghost(v0), Ghost(d));
                proof { d = d.push(Draw::Text(label_row@)); }
            },
            _ => {
                op_bold(term, Ghost(v0), Ghost(d));
                proof { d = d.push(Draw::Attr(ATTR_BOLD)); }
                op_text(term, label_row, Ghost(v0), Ghost(d));
                proof { d = d.push(Draw::Text(label_row@)); }
                op_reset(term, Ghost(v0), Ghost(d));
                proof { d = d.push(Draw::Reset); }
            },
        }
    } else {
        op_text(term, blank, Ghost(v0), Ghost(d));
        proof { d = d.push(Draw::Text(blank@)); }
    }
    op_fg(term, border, Ghost(v0), Ghost(d));
    proof { d = d.push(Draw::Fg(border)); }
    op_bg(term, theme.bg, Ghost(v0), Ghost(d));
    proof { d = d.push(Draw::Bg(theme.bg)); }
    op_text(term, vline, Ghost(v0), Ghost(d));
    proof {
        d = d.push(Draw::Text(seq![v]));
        assert(d =~= before + button_row_draws(r, label, interaction, *theme, row as int));
    }
}

/// Draws a button in its rectangle, framed and colored by its interaction state.
#[verifier::rlimit(40)]
pub fn render_button(term: &mut Term, r: Rect, label: &str, interaction: Interaction, theme: &Theme)
    requires
        old(term).wf(),
        r.height >= 1,
        r.y + r.height <= u16::MAX,
    ensures
        final(term).wf(),
        final(term)@ == run_draws(old(term)@, button_draws(r, label@, interaction, *theme)),
{
    let ghost v0 = term@;
    proof {
        lemma_run_empty(v0);
    }
    let (fg, bg, border) = match interaction {
        Interaction::Pressed => (theme.btn_fg_press, theme.btn_bg_press, theme.border_press),
        Interaction::Focused => (theme.btn_fg_focus, theme.btn_bg_focus, theme.border_focus),
        Interaction::Idle => (theme.btn_fg_idle, theme.btn_bg_idle, theme.border_idle),
    };
    let (tl, tr, bl, br, h, v) = match interaction {
        Interaction::Idle => ('\u{250C}', '\u{2510}', '\u{2514}', '\u{2518}', '\u{2500}', '\u{2502}'),
        _ => ('\u{256D}', '\u{256E}', '\u{2570}', '\u{256F}', '\u{2500}', '\u{2502}'),
    };
    let inner: usize = if r.width >= 2 { (r.width - 2) as usize } else { 0 };
    let shown = shown_label_chars(label, interaction);
    let label_row = centered_line(&shown, inner);
    let blank = repeated(' ', inner);
    let vline = repeated(v, 1);
    proof {
        assert(vline@ =~= seq![v]);
    }
    let ghost mut ds: Seq<Draw> = seq![];
    op_move(term, r.x, r.y, Ghost(v0), Ghost(ds));
    proof { ds = ds.push(Draw::Move(r.x, r.y)); }
    op_fg(term, border, Ghost(v0), Ghost(ds));
    proof { ds = ds.push(Draw::Fg(border)); }
    op_bg(term, theme.bg, Ghost(v0), Ghost(ds));
    proof { ds = ds.push(Draw::Bg(theme.bg)); }
    let top = border_line(tl, h, inner, tr);
    op_text(term, &top, Ghost(v0), Ghost(ds));
    proof { ds = ds.push(Draw::Text(top@)); }
    let ghost head = ds;
    let ghost f = |row: int| button_row_draws(r, label@, interaction, *theme, row);
    let last: u16 = r.height - 1;
    let text_row = r.height / 2;
    let mut row: u16 = 1;
    proof {
        assert(rows_draws(f, 1, 1) =~= seq![]);
        assert(head + rows_draws(f, 1, 1) =~= head);
    }
    while row < last
        invariant
            1 <= row,
            row <= last || row == 1,
            last == r.height - 1,
            text_row == r.height / 2,
            r.y + r.height <= u16::MAX,
            inner == (if r.width >= 2 { r.width - 2 } else { 0 }),
            blank@ == spaces(inner as nat),
            vline@ == seq![v],
            label_row@ == centered(shown_label(label@, interaction), inner as nat),
            border == button_colors(interaction, *theme).2,
            v == button_frame(interaction).5,
            f == (|row: int| button_row_draws(r, label@, interaction, *theme, row)),
            term.wf(),
            term@ == run_draws(v0, head + rows_draws(f, 1, row as int)),
        decreases last - row,
    {
        let ghost before = head + rows_draws(f, 1, row as int);
        draw_button_row(term, r, interaction, theme, row, text_row, &label_row, &blank, &vline, Ghost(label@), Ghost(v0), Ghost(before));
        proof {
            assert(rows_draws(f, 1, row + 1) == rows_draws(f, 1, row as int) + f(row as int));
            assert(head + rows_draws(f, 1, row + 1) =~= before + f(row as int));
        }
        row = row + 1;
    }
    let ghost mid = head + rows_draws(f, 1, last as int);
    proof {
        if last == 0 {
            assert(rows_draws(f, 1, 0) =~= seq![]);
            assert(rows_draws(f, 1, 1) =~= seq![]);
            assert(head + rows_draws(f, 1, 1) =~= mid);
        }
    }
    let ghost mut d: Seq<Draw> = mid;
    op_move(term, r.x, r.y + r.height - 1, Ghost(v0), Ghost(d));
    proof { d = d.push(Draw::Move(r.x, (r.y + r.height - 1) as u16)); }
    op_fg(term, border, Ghost(v0), Ghost(d));
    proof { d = d.push(Draw::Fg(border)); }
    op_bg(term, theme.bg, Ghost(v0), Ghost(d));
    proof { d = d.push(Draw::Bg(theme.bg)); }
    let bottom = border_line(bl, h, inner, br);
    op_text(term, &bottom, Ghost(v0), Ghost(d));
    proof {
        d = d.push(Draw::Text(bottom@));
        assert(d =~= button_draws(r, label@, interaction, *theme));
    }
}

/// `a - b`, or 0 when `b` is larger.
pub open spec fn minus(a: int, b: int) -> nat {
    if a >= b {
        (a - b) as nat
    } else {
        0
    }
}

fn text_then_spaces(t: &Vec<char>, n: usize, width: usize) -> (line: Vec<char>)
    ensures
        line@ == take_chars(t@, n as nat) + spaces(minus(width as int, take_chars(t@, n as nat).len() as int)),
{
    let mut line: Vec<char> = Vec::new();
    push_prefix(&mut line, t.as_slice(), n);
    let k = line.len();
    let pad = if width >= k { width - k } else { 0 };
    push_repeat(&mut line, ' ', pad);
    proof {
        assert(line@ =~= take_chars(t@, n as nat) + spaces(minus(width as int, take_chars(t@, n as nat).len() as int)));
    }
    line
}

// Panels.

/// The shadow of a panel: one column right of it, from its second row to one
/// row below it, and the row below it from its second column.
pub open spec fn shadow_draws(r: Rect, t: Theme) -> Seq<Draw> {
    seq![Draw::Bg(t.shadow), Draw::Fg(t.shadow)] + rows_draws(
        |row: int| seq![Draw::Move((r.x + r.width) as u16, row as u16), Draw::Text(seq![' '])],
        r.y + 1,
        r.y + r.height + 1,
    ) + seq![Draw::Move((r.x + 1) as u16, (r.y + r.height) as u16), Draw::Text(spaces(r.width as nat))]
}

/// The top border of a panel after its corner: the title, cut to leave room,
/// in bold in the theme's color between `h ` and ` `, then the line.
pub open spec fn panel_top_draws(title: Option<Seq<char>>, inner: nat, h: char, tr: char, bfg: (u8, u8, u8), pbg: (u8, u8, u8), t: Theme) -> Seq<Draw> {
    match title {
        Some(tt) => {
            let ts = take_chars(tt, minus(inner as int, 4));
            seq![
                Draw::Text(seq![h, ' ']),
                Draw::Fg(t.fg),
                Draw::Attr(ATTR_BOLD),
                Draw::Text(ts),
                Draw::Reset,
                Draw::Fg(bfg),
                Draw::Bg(pbg),
                Draw::Text(seq![' '] + repeat_char(h, minus(inner as int, ts.len() + 3int)) + seq![tr]),
            ]
        },
        None => seq![Draw::Text(repeat_char(h, inner) + seq![tr])],
    }
}

/// The side borders of a panel, on each row but the first and the last.
pub open spec fn panel_sides(r: Rect, v: char, inner: nat, bfg: (u8, u8, u8), pbg: (u8, u8, u8)) -> Seq<Draw> {
    rows_draws(
        |row: int| seq![Draw::Fg(bfg), Draw::Bg(pbg), Draw::Move(r.x, (r.y + row) as u16), Draw::Text(seq![v] + spaces(inner) + seq![v])],
        1,
        r.height - 1,
    )
}

/// A panel's borders and title.
pub open spec fn panel_frame_draws(r: Rect, title: Option<Seq<char>>, border: BorderStyle, style: Style, t: Theme) -> Seq<Draw> {
    let (tl, tr, bl, br, h, v) = spec_border_chars(border);
    let bfg = color_or(style.fg, t.border_idle);
    let pbg = color_or(style.bg, t.bg);
    let inner = minus(r.width as int, 2);
    seq![Draw::Fg(bfg), Draw::Bg(pbg), Draw::Move(r.x, r.y), Draw::Text(seq![tl])]
        + panel_top_draws(title, inner, h, tr, bfg, pbg, t)
        + panel_sides(r, v, inner, bfg, pbg)
        + seq![Draw::Fg(bfg), Draw::Bg(pbg), Draw::Move(r.x, (r.y + r.height - 1) as u16), Draw::Text(seq![bl] + repeat_char(h, inner) + seq![br])]
}

/// The operations that draw a panel: its shadow when it has one, the top
/// border with the title, the side borders, the bottom border.
pub open spec fn panel_draws(r: Rect, title: Option<Seq<char>>, border: BorderStyle, shadow: bool, style: Style, t: Theme) -> Seq<Draw> {
    (if shadow { shadow_draws(r, t) } else { seq![] }) + panel_frame_draws(r, title, border, style, t)
}

fn draw_shadow(term: &mut Term, r: Rect, theme: &Theme, Ghost(v0): Ghost<TermView>, Ghost(ds): Ghost<Seq<Draw>>)
    requires
        old(term).wf(),
        old(term)@ == run_draws(v0, ds),
        r.x + r.width <= u16::MAX,
        r.x + 1 <= u16::MAX,
        r.y + r.height + 1 <= u16::MAX,
    ensures
        final(term).wf(),
        final(term)@ == run_draws(v0, ds + shadow_draws(r, *theme)),
{
    let ghost mut d = ds;
    op_bg(term, theme.shadow, Ghost(v0), Ghost(d));
    proof { d = d.push(Draw::Bg(theme.shadow)); }
    op_fg(term, theme.shadow, Ghost(v0), Ghost(d));
    proof { d = d.push(Draw::Fg(theme.shadow)); }
    let ghost head = d;
    let ghost f = |row: int| seq![Draw::Move((r.x + r.width) as u16, row as u16), Draw::Text(seq![' '])];
    let one = repeated(' ', 1);
    proof {
        assert(one@ =~= seq![' ']);
        assert(rows_draws(f, r.y + 1, r.y + 1) =~= seq![]);
        assert(head + rows_draws(f, r.y + 1, r.y + 1) =~= head);
    }
    let end: u16 = r.y + r.height + 1;
    let mut row: u16 = r.y + 1;
    while row < end
        invariant
            r.y + 1 <= row <= end,
            end == r.y + r.height + 1,
            r.x + r.width <= u16::MAX,
            one@ == seq![' '],
            f == (|row: int| seq![Draw::Move((r.x + r.width) as u16, row as u16), Draw::Text(seq![' '])]),
            term.wf(),
            term@ == run_draws(v0, head + rows_draws(f, r.y + 1, row as int)),
        decreases end - row,
    {
        let ghost before = head + rows_draws(f, r.y + 1, row as int);
        op_move(term, r.x + r.width, row, Ghost(v0), Ghost(before));
        op_text(term, &one, Ghost(v0), Ghost(before.push(Draw::Move((r.x + r.width) as u16, row))));
        proof {
            assert(rows_draws(f, r.y + 1, row + 1) == rows_draws(f, r.y + 1, row as int) + f(row as int));
            assert(head + rows_draws(f, r.y + 1, row + 1) =~= before.push(Draw::Move((r.x + r.width) as u16, row)).push(Draw::Text(seq![' '])));
        }
        row = row + 1;
    }
    let ghost mid = head + rows_draws(f, r.y + 1, end as int);
    op_move(term, r.x + 1, r.y + r.height, Ghost(v0), Ghost(mid));
    let below = repeated(' ', r.width as usize);
    op_text(term, &below, Ghost(v0), Ghost(mid.push(Draw::Move((r.x + 1) as u16, (r.y + r.height) as u16))));
    proof {
        assert(mid.push(Draw::Move((r.x + 1) as u16, (r.y + r.height) as u16)).push(Draw::Text(below@)) =~= ds + shadow_draws(r, *theme));
    }
}

fn draw_panel_sides(term: &mut Term, r: Rect, v: char, inner: usize, bfg: (u8, u8, u8), pbg: (u8, u8, u8), Ghost(v0): Ghost<TermView>, Ghost(ds): Ghost<Seq<Draw>>)
    requires
        old(term).wf(),
        old(term)@ == run_draws(v0, ds),
        r.height >= 1,
        r.y + r.height <= u16::MAX,
    ensures
        final(term).wf(),
        final(term)@ == run_draws(v0, ds + panel_sides(r, v, inner as nat, bfg, pbg)),
{
    let ghost f = |row: int| seq![Draw::Fg(bfg), Draw::Bg(pbg), Draw::Move(r.x, (r.y + row) as u16), Draw::Text(seq![v] + spaces(inner as nat) + seq![v])];
    let mut line: Vec<char> = Vec::new();
    line.push(v);
    push_repeat(&mut line, ' ', inner);
    line.push(v);
    proof {
        assert(line@ =~= seq![v] + spaces(inner as nat) + seq![v]);
        assert(rows_draws(f, 1, 1) =~= seq![]);
        assert(rows_draws(f, 1, 0) =~= seq![]);
        assert(ds + rows_draws(f, 1, 1) =~= ds);
    }
    let last: u16 = r.height - 1;
    let mut row: u16 = 1;
    while row < last
        invariant
            1 <= row,
            row <= last || row == 1,
            last == r.height - 1,
            r.y + r.height <= u16::MAX,
            line@ == seq![v] + spaces(inner as nat) + seq![v],
            f == (|row: int| seq![Draw::Fg(bfg), Draw::Bg(pbg), Draw::Move(r.x, (r.y + row) as u16), Draw::Text(seq![v] + spaces(inner as nat) + seq![v])]),
            term.wf(),
            term@ == run_draws(v0, ds + rows_draws(f, 1, row as int)),
        decreases last - row,
    {
        let ghost before = ds + rows_draws(f, 1, row as int);
        let ghost mut d = before;
        op_fg(term, bfg, Ghost(v0), Ghost(d));
        proof { d = d.push(Draw::Fg(bfg)); }
        op_bg(term, pbg, Ghost(v0), Ghost(d));
        proof { d = d.push(Draw::Bg(pbg)); }
        op_move(term, r.x, r.y + row, Ghost(v0), Ghost(d));
        proof { d = d.push(Draw::Move(r.x, (r.y + row) as u16)); }
        op_text(term, &line, Ghost(v0), Ghost(d));
        proof {
            d = d.push(Draw::Text(line@));
            assert(rows_draws(f, 1, row + 1) == rows_draws(f, 1, row as int) + f(row as int));
            assert(ds + rows_draws(f, 1, row + 1) =~= d);
        }
        row = row + 1;
    }
    proof {
        if last == 0 {
            assert(ds + rows_draws(f, 1, 1) =~= ds + rows_draws(f, 1, 0));
        }
    }
}

fn draw_panel_top(term: &mut Term, title: Option<&String>, inner: usize, h: char, tr: char, bfg: (u8, u8, u8), pbg: (u8, u8, u8), theme: &Theme, Ghost(v0): Ghost<TermView>, Ghost(ds): Ghost<Seq<Draw>>)
    requires
        old(term).wf(),
        old(term)@ == run_draws(v0, ds),
    ensures
        final(term).wf(),
        final(term)@ == run_draws(v0, ds + panel_top_draws(
            match title {
                Some(t) => Some(t@),
                None => None,
            },
            inner as nat,
            h,
            tr,
            bfg,
            pbg,
            *theme,
        )),
{
    let ghost tv = match title {
        Some(t) => Some(t@),
        None => None,
    };
    match title {
        Some(t) => {
            let cs = str_chars(t.as_str());
            let max_title: usize = if inner >= 4 { inner - 4 } else { 0 };
            let mut ts: Vec<char> = Vec::new();
            push_prefix(&mut ts, cs.as_slice(), max_title);
            let n = ts.len();
            let mut lead: Vec<char> = Vec::new();
            lead.push(h);
            lead.push(' ');
            let ghost mut d = ds;
            op_text(term, &lead, Ghost(v0), Ghost(d));
            proof { d = d.push(Draw::Text(lead@)); }
            op_fg(term, theme.fg, Ghost(v0), Ghost(d));
            proof { d = d.push(Draw::Fg(theme.fg)); }
            op_bold(term, Ghost(v0), Ghost(d));
            proof { d = d.push(Draw::Attr(ATTR_BOLD)); }
            op_text(term, &ts, Ghost(v0), Ghost(d));
            proof { d = d.push(Draw::Text(ts@)); }
            op_reset(term, Ghost(v0), Ghost(d));
            proof { d = d.push(Draw::Reset); }
            op_fg(term, bfg, Ghost(v0), Ghost(d));
            proof { d = d.push(Draw::Fg(bfg)); }
            op_bg(term, pbg, Ghost(v0), Ghost(d));
            proof { d = d.push(Draw::Bg(pbg)); }
            let rest: usize = if inner >= n + 3 { inner - (n + 3) } else { 0 };
            let mut tail: Vec<char> = Vec::new();
            tail.push(' ');
            push_repeat(&mut tail, h, rest);
            tail.push(tr);
            op_text(term, &tail, Ghost(v0), Ghost(d));
            proof {
                d = d.push(Draw::Text(tail@));
                assert(ts@ =~= take_chars(t@, minus(inner as int, 4)));
                assert(lead@ =~= seq![h, ' ']);
                assert(tail@ =~= seq![' '] + repeat_char(h, minus(inner as int, ts@.len() + 3int)) + seq![tr]);
                assert(d =~= ds + panel_top_draws(tv, inner as nat, h, tr, bfg, pbg, *theme));
            }
        },
        None => {
            let mut line = repeated(h, inner);
            line.push(tr);
            op_text(term, &line, Ghost(v0), Ghost(ds));
            proof {
                assert(tv is None);
                assert(line@ =~= repeat_char(h, inner as nat) + seq![tr]);
                assert(ds.push(Draw::Text(line@)) =~= ds + panel_top_draws(tv, inner as nat, h, tr, bfg, pbg, *theme));
            }
        },
    }
}

#[verifier::spinoff_prover]
#[verifier::rlimit(40)]
fn draw_panel_frame(term: &mut Term, r: Rect, title: Option<&String>, border: BorderStyle, style: &Style, theme: &Theme)
    requires
        old(term).wf(),
        r.height >= 1,
        r.y + r.height <= u16::MAX,
    ensures
        final(term).wf(),
        final(term)@ == run_draws(old(term)@, panel_frame_draws(
            r,
            match title {
                Some(t) => Some(t@),
                None => None,
            },
            border,
            *style,
            *theme,
        )),
{
    let ghost v0 = term@;
    proof {
        lemma_run_empty(v0);
    }
    let ghost tv = match title {
        Some(t) => Some(t@),
        None => None,
    };
    let (tl, tr, bl, br, h, v) = border_chars(border);
    let bfg = match style.fg {
        Some(c) => c,
        None => theme.border_idle,
    };
    let pbg = match style.bg {
        Some(c) => c,
        None => theme.bg,
    };
    let inner: usize = if r.width >= 2 { (r.width - 2) as usize } else { 0 };
    let ghost mut d: Seq<Draw> = seq![];
    op_fg(term, bfg, Ghost(v0), Ghost(d));
    proof { d = d.push(Draw::Fg(bfg)); }
    op_bg(term, pbg, Ghost(v0), Ghost(d));
    proof { d = d.push(Draw::Bg(pbg)); }
    op_move(term, r.x, r.y, Ghost(v0), Ghost(d));
    proof { d = d.push(Draw::Move(r.x, r.y)); }
    let corner = repeated(tl, 1);
    op_text(term, &corner, Ghost(v0), Ghost(d));
    let ghost d2 = seq![Draw::Fg(bfg), Draw::Bg(pbg), Draw::Move(r.x, r.y), Draw::Text(seq![tl])];
    proof {
        assert(corner@ =~= seq![tl]);
        assert(d.push(Draw::Text(corner@)) =~= d2);
    }
    draw_panel_top(term, title, inner, h, tr, bfg, pbg, theme, Ghost(v0), Ghost(d2));
    let ghost d3 = d2 + panel_top_draws(tv, inner as nat, h, tr, bfg, pbg, *theme);
    draw_panel_sides(term, r, v, inner, bfg, pbg, Ghost(v0), Ghost(d3));
    let ghost d4 = d3 + panel_sides(r, v, inner as nat, bfg, pbg);
    let ghost mut e = d4;
    op_fg(term, bfg, Ghost(v0), Ghost(e));
    proof { e = e.push(Draw::Fg(bfg)); }
    op_bg(term, pbg, Ghost(v0), Ghost(e));
    proof { e = e.push(Draw::Bg(pbg)); }
    op_move(term, r.x, r.y + r.height - 1, Ghost(v0), Ghost(e));
    proof { e = e.push(Draw::Move(r.x, (r.y + r.height - 1) as u16)); }
    let bottom = border_line(bl, h, inner, br);
    op_text(term, &bottom, Ghost(v0), Ghost(e));
    proof {
        let tail = seq![Draw::Fg(bfg), Draw::Bg(pbg), Draw::Move(r.x, (r.y + r.height - 1) as u16), Draw::Text(seq![bl] + repeat_char(h, inner as nat) + seq![br])];
        assert(e.push(Draw::Text(bottom@)) =~= d4 + tail);
        let (stl, str, sbl, sbr, sh, sv) = spec_border_chars(border);
        assert(stl == tl && str == tr && sbl == bl && sbr == br && sh == h && sv == v);
        assert(inner as nat == minus(r.width as int, 2));
        assert(bfg == color_or(style.fg, theme.border_idle));
        assert(pbg == color_or(style.bg, theme.bg));
    }
}

/// Draws a panel in its rectangle: shadow, borders and title.
pub fn render_panel(term: &mut Term, r: Rect, title: Option<&String>, border: BorderStyle, shadow: bool, style: &Style, theme: &Theme)
    requires
        old(term).wf(),
        r.height >= 1,
        r.y + r.height <= u16::MAX,
        shadow ==> r.x + r.width <= u16::MAX && r.x + 1 <= u16::MAX && r.y + r.height + 1 <= u16::MAX,
    ensures
        final(term).wf(),
        final(term)@ == run_draws(old(term)@, panel_draws(
            r,
            match title {
                Some(t) => Some(t@),
                None => None,
            },
            border,
            shadow,
            *style,
            *theme,
        )),
{
    let ghost v0 = term@;
    proof {
        lemma_run_empty(v0);
    }
    let ghost tv = match title {
        Some(t) => Some(t@),
        None => None,
    };
    let ghost sh: Seq<Draw> = if shadow { shadow_draws(r, *theme) } else { seq![] };
    if shadow {
        draw_shadow(term, r, theme, Ghost(v0), Ghost(Seq::<Draw>::empty()));
        proof {
            assert(Seq::<Draw>::empty() + shadow_draws(r, *theme) =~= sh);
        }
    }
    let ghost v1 = term@;
    draw_panel_frame(term, r, title, border, style, theme);
    proof {
        lemma_run_concat(v0, sh, panel_frame_draws(r, tv, border, *style, *theme));
    }
}

// Separators.

/// The operations that draw a separator: a line across the rectangle's top
/// row, with the label (cut to leave room) in bold after three dashes.
pub open spec fn separator_draws(r: Rect, label: Option<Seq<char>>, t: Theme) -> Seq<Draw> {
    let w = r.width as int;
    seq![Draw::Fg(t.border_idle), Draw::Bg(t.bg), Draw::Move(r.x, r.y)] + match label {
        Some(l) => {
            let lt = take_chars(l, minus(w, 6));
            seq![
                Draw::Text(repeat_char('\u{2500}', 3) + seq![' ']),
                Draw::Fg(t.fg),
                Draw::Attr(ATTR_BOLD),
                Draw::Text(lt),
                Draw::Reset,
                Draw::Fg(t.border_idle),
                Draw::Bg(t.bg),
                Draw::Text(seq![' '] + repeat_char('\u{2500}', minus(w, 5 + lt.len() as int))),
            ]
        },
        None => seq![Draw::Text(repeat_char('\u{2500}', w as nat))],
    }
}

/// Draws a separator line, with its label when it has one.
pub fn render_separator(term: &mut Term, r: Rect, label: Option<&String>, theme: &Theme)
    requires
        old(term).wf(),
    ensures
        final(term).wf(),
        final(term)@ == run_draws(old(term)@, separator_draws(
            r,
            match label {
                Some(l) => Some(l@),
                None => None,
            },
            *theme,
        )),
{
    let ghost v0 = term@;
    proof {
        lemma_run_empty(v0);
    }
    let ghost lv = match label {
        Some(l) => Some(l@),
        None => None,
    };
    let fg = theme.border_idle;
    let ghost mut h0: Seq<Draw> = seq![];
    op_fg(term, fg, Ghost(v0), Ghost(h0));
    proof { h0 = h0.push(Draw::Fg(fg)); }
    op_bg(term, theme.bg, Ghost(v0), Ghost(h0));
    proof { h0 = h0.push(Draw::Bg(theme.bg)); }
    op_move(term, r.x, r.y, Ghost(v0), Ghost(h0));
    proof { h0 = h0.push(Draw::Move(r.x, r.y)); }
    let ghost head = seq![Draw::Fg(fg), Draw::Bg(theme.bg), Draw::Move(r.x, r.y)];
    proof {
        assert(h0 =~= head);
    }
    let w = r.width as usize;
    match label {
        Some(l) => {
            let cs = str_chars(l.as_str());
            let max_label: usize = if w >= 6 { w - 6 } else { 0 };
            let mut lt: Vec<char> = Vec::new();
            push_prefix(&mut lt, cs.as_slice(), max_label);
            let n = lt.len();
            let mut lead = repeated('\u{2500}', 3);
            lead.push(' ');
            let ghost mut d = head;
            op_text(term, &lead, Ghost(v0), Ghost(d));
            proof { d = d.push(Draw::Text(lead@)); }
            op_fg(term, theme.fg, Ghost(v0), Ghost(d));
            proof { d = d.push(Draw::Fg(theme.fg)); }
            op_bold(term, Ghost(v0), Ghost(d));
            proof { d = d.push(Draw::Attr(ATTR_BOLD)); }
            op_text(term, &lt, Ghost(v0), Ghost(d));
            proof { d = d.push(Draw::Text(lt@)); }
            op_reset(term, Ghost(v0), Ghost(d));
            proof { d = d.push(Draw::Reset); }
            op_fg(term, fg, Ghost(v0), Ghost(d));
            proof { d = d.push(Draw::Fg(fg)); }
            op_bg(term, theme.bg, Ghost(v0), Ghost(d));
            proof { d = d.push(Draw::Bg(theme.bg)); }
            let rest: usize = if w >= 5 + n { w - (5 + n) } else { 0 };
            let mut tail: Vec<char> = Vec::new();
            tail.push(' ');
            push_repeat(&mut tail, '\u{2500}', rest);
            op_text(term, &tail, Ghost(v0), Ghost(d));
            proof {
                d = d.push(Draw::Text(tail@));
                assert(lt@ =~= take_chars(l@, minus(w as int, 6)));
                assert(lead@ =~= repeat_char('\u{2500}', 3) + seq![' ']);
                assert(tail@ =~= seq![' '] + repeat_char('\u{2500}', minus(w as int, 5 + lt@.len() as int)));
                assert(d =~= separator_draws(r, lv, *theme));
            }
        },
        None => {
            let line = repeated('\u{2500}', w);
            op_text(term, &line, Ghost(v0), Ghost(head));
            proof {
                assert(lv is None);
                assert(head.push(Draw::Text(line@)) =~= separator_draws(r, lv, *theme));
            }
        },
    }
}

// Text fields.

/// The middle row of a text field: the value, or, when it is empty and the
/// field unfocused, the placeholder dimmed; cut to the inside and padded.
pub open spec fn input_row_draws(
    r: Rect,
    value: Seq<char>,
    placeholder: Seq<char>,
    focused: bool,
    inner: nat,
    border: (u8, u8, u8),
    fg: (u8, u8, u8),
    bg: (u8, u8, u8),
    t: Theme,
) -> Seq<Draw> {
    seq![
        Draw::Move(r.x, (r.y + 1) as u16),
        Draw::Fg(border),
        Draw::Bg(t.bg),
        Draw::Text(seq!['\u{2502}']),
        Draw::Fg(fg),
        Draw::Bg(bg),
    ] + (if value.len() == 0 && !focused {
        let ph = take_chars(placeholder, inner);
        seq![Draw::Attr(ATTR_DIM), Draw::Text(ph + spaces(minus(inner as int, ph.len() as int))), Draw::Reset]
    } else {
        let sh = take_chars(value, inner);
        seq![Draw::Text(sh + spaces(minus(inner as int, sh.len() as int)))]
    }) + seq![Draw::Fg(border), Draw::Bg(t.bg), Draw::Text(seq!['\u{2502}'])]
}

/// The operations that draw a text field: a framed box whose middle row
/// shows the value (or, when empty and unfocused, the placeholder dimmed),
/// cut to the inside width; rows that do not fit are left out.
pub open spec fn text_input_draws(r: Rect, value: Seq<char>, placeholder: Seq<char>, i: Interaction, t: Theme) -> Seq<Draw> {
    let focused = i == Interaction::Focused || i == Interaction::Pressed;
    let border = if focused { t.border_focus } else { t.border_idle };
    let fg = if focused { t.btn_fg_focus } else { t.fg };
    let bg = if focused { t.btn_bg_focus } else { t.btn_bg_idle };
    let inner = minus(r.width as int, 2);
    seq![
        Draw::Move(r.x, r.y),
        Draw::Fg(border),
        Draw::Bg(t.bg),
        Draw::Text(seq!['\u{250C}'] + repeat_char('\u{2500}', inner) + seq!['\u{2510}']),
    ] + (if r.height >= 2 {
        input_row_draws(r, value, placeholder, focused, inner, border, fg, bg, t)
    } else {
        seq![]
    }) + (if r.height >= 3 {
        seq![
            Draw::Move(r.x, (r.y + r.height - 1) as u16),
            Draw::Fg(border),
            Draw::Bg(t.bg),
            Draw::Text(seq!['\u{2514}'] + repeat_char('\u{2500}', inner) + seq!['\u{2518}']),
        ]
    } else {
        seq![]
    })
}

fn draw_text_input_row(term: &mut Term, r: Rect, value: &str, placeholder: &str, focused: bool, inner: usize, border: (u8, u8, u8), fg: (u8, u8, u8), bg: (u8, u8, u8), theme: &Theme, Ghost(v0): Ghost<TermView>, Ghost(ds): Ghost<Seq<Draw>>)
    requires
        old(term).wf(),
        old(term)@ == run_draws(v0, ds),
        r.y + 1 <= u16::MAX,
    ensures
        final(term).wf(),
        final(term)@ == run_draws(v0, ds + input_row_draws(r, value@, placeholder@, focused, inner as nat, border, fg, bg, *theme)),
{
    let bar = repeated('\u{2502}', 1);
    proof {
        assert(bar@ =~= seq!['\u{2502}']);
    }
    let ghost mut d = ds;
    op_move(term, r.x, r.y + 1, Ghost(v0), Ghost(d));
    proof { d = d.push(Draw::Move(r.x, (r.y + 1) as u16)); }
    op_fg(term, border, Ghost(v0), Ghost(d));
    proof { d = d.push(Draw::Fg(border)); }
    op_bg(term, theme.bg, Ghost(v0), Ghost(d));
    proof { d = d.push(Draw::Bg(theme.bg)); }
    op_text(term, &bar, Ghost(v0), Ghost(d));
    proof { d = d.push(Draw::Text(bar@)); }
    op_fg(term, fg, Ghost(v0), Ghost(d));
    proof { d = d.push(Draw::Fg(fg)); }
    op_bg(term, bg, Ghost(v0), Ghost(d));
    proof { d = d.push(Draw::Bg(bg)); }
    let ghost d1 = d;
    let vs = str_chars(value);
    if vs.len() == 0 && !focused {
        let cs = str_chars(placeholder);
        let line = text_then_spaces(&cs, inner, inner);
        op_dim(term, Ghost(v0), Ghost(d));
        proof { d = d.push(Draw::Attr(ATTR_DIM)); }
        op_text(term, &line, Ghost(v0), Ghost(d));
        proof { d = d.push(Draw::Text(line@)); }
        op_reset(term, Ghost(v0), Ghost(d));
        proof { d = d.push(Draw::Reset); }
    } else {
        let line = text_then_spaces(&vs, inner, inner);
        op_text(term, &line, Ghost(v0), Ghost(d));
        proof { d = d.push(Draw::Text(line@)); }
    }
    let ghost d2 = d;
    op_fg(term, border, Ghost(v0), Ghost(d));
    proof { d = d.push(Draw::Fg(border)); }
    op_bg(term, theme.bg, Ghost(v0), Ghost(d));
    proof { d = d.push(Draw::Bg(theme.bg)); }
    op_text(term, &bar, Ghost(v0), Ghost(d));
    proof {
        d = d.push(Draw::Text(bar@));
        assert(d =~= ds + input_row_draws(r, value@, placeholder@, focused, inner as nat, border, fg, bg, *theme));
    }
}

/// Draws a text field in its rectangle.
pub fn render_text_input(term: &mut Term, r: Rect, value: &str, placeholder: &str, interaction: Interaction, theme: &Theme)
    requires
        old(term).wf(),
        r.height == 2 ==> r.y + 1 <= u16::MAX,
        r.height >= 3 ==> r.y + r.height <= u16::MAX,
    ensures
        final(term).wf(),
        final(term)@ == run_draws(old(term)@, text_input_draws(r, value@, placeholder@, interaction, *theme)),
{
    let ghost v0 = term@;
    proof {
        lemma_run_empty(v0);
    }
    let focused = match interaction {
        Interaction::Focused => true,
        Interaction::Pressed => true,
        Interaction::Idle => false,
    };
    let border = if focused { theme.border_focus } else { theme.border_idle };
    let fg = if focused { theme.btn_fg_focus } else { theme.fg };
    let bg = if focused { theme.btn_bg_focus } else { theme.btn_bg_idle };
    let inner: usize = if r.width >= 2 { (r.width - 2) as usize } else { 0 };
    let top = border_line('\u{250C}', '\u{2500}', inner, '\u{2510}');
    let ghost mut h0: Seq<Draw> = seq![];
    op_move(term, r.x, r.y, Ghost(v0), Ghost(h0));
    proof { h0 = h0.push(Draw::Move(r.x, r.y)); }
    op_fg(term, border, Ghost(v0), Ghost(h0));
    proof { h0 = h0.push(Draw::Fg(border)); }
    op_bg(term, theme.bg, Ghost(v0), Ghost(h0));
    proof { h0 = h0.push(Draw::Bg(theme.bg)); }
    op_text(term, &top, Ghost(v0), Ghost(h0));
    proof { h0 = h0.push(Draw::Text(top@)); }
    let ghost d1 = seq![Draw::Move(r.x, r.y), Draw::Fg(border), Draw::Bg(theme.bg), Draw::Text(top@)];
    proof {
        assert(h0 =~= d1);
    }
    let ghost mid = if r.height >= 2 {
        input_row_draws(r, value@, placeholder@, focused, inner as nat, border, fg, bg, *theme)
    } else {
        seq![]
    };
    if r.height >= 2 {
        draw_text_input_row(term, r, value, placeholder, focused, inner, border, fg, bg, theme, Ghost(v0), Ghost(d1));
    } else {
        proof {
            assert(d1 + mid =~= d1);
        }
    }
    let ghost d2 = d1 + mid;
    if r.height >= 3 {
        op_move(term, r.x, r.y + r.height - 1, Ghost(v0), Ghost(d2));
        op_fg(term, border, Ghost(v0), Ghost(d2.push(Draw::Move(r.x, (r.y + r.height - 1) as u16))));
        op_bg(term, theme.bg, Ghost(v0), Ghost(d2.push(Draw::Move(r.x, (r.y + r.height - 1) as u16)).push(Draw::Fg(border))));
        let bottom = border_line('\u{2514}', '\u{2500}', inner, '\u{2518}');
        op_text(term, &bottom, Ghost(v0), Ghost(d2.push(Draw::Move(r.x, (r.y + r.height - 1) as u16)).push(Draw::Fg(border)).push(Draw::Bg(theme.bg))));
        proof {
            assert(d2.push(Draw::Move(r.x, (r.y + r.height - 1) as u16)).push(Draw::Fg(border)).push(Draw::Bg(theme.bg)).push(Draw::Text(bottom@)) =~= text_input_draws(r, value@, placeholder@, interaction, *theme));
        }
    } else {
        proof {
            assert(d2 =~= text_input_draws(r, value@, placeholder@, interaction, *theme));
        }
    }
}

// Spinners and typewriter text.

/// The operations that draw a spinner `ticks` steps along: its frame, then
/// the label after a space.
pub open spec fn spinner_draws(r: Rect, spinner: SpinnerStyle, ticks: nat, label: Option<Seq<char>>, style: Style, t: Theme) -> Seq<Draw> {
    let frames = spec_frames(spinner);
    seq![
        Draw::Move(r.x, r.y),
        Draw::Fg(color_or(style.fg, t.fg)),
        Draw::Bg(t.bg),
        Draw::Text(seq![frames[(ticks % frames.len()) as int]]),
    ] + match label {
        Some(l) => seq![Draw::Text(seq![' '] + l)],
        None => seq![],
    }
}

/// Draws a spinner `ticks` steps along, with its label.
pub fn render_spinner(term: &mut Term, r: Rect, spinner: SpinnerStyle, ticks: usize, label: Option<&String>, style: &Style, theme: &Theme)
    requires
        old(term).wf(),
    ensures
        final(term).wf(),
        final(term)@ == run_draws(old(term)@, spinner_draws(
            r,
            spinner,
            ticks as nat,
            match label {
                Some(l) => Some(l@),
                None => None,
            },
            *style,
            *theme,
        )),
{
    let ghost v0 = term@;
    proof {
        lemma_run_empty(v0);
    }
    let frames = frames_for(spinner);
    proof {
        assert(frames@.len() > 0);
    }
    let ch = frames[ticks % frames.len()];
    let fg = match style.fg {
        Some(c) => c,
        None => theme.fg,
    };
    let ghost mut d: Seq<Draw> = seq![];
    op_move(term, r.x, r.y, Ghost(v0), Ghost(d));
    proof { d = d.push(Draw::Move(r.x, r.y)); }
    op_fg(term, fg, Ghost(v0), Ghost(d));
    proof { d = d.push(Draw::Fg(fg)); }
    op_bg(term, theme.bg, Ghost(v0), Ghost(d));
    proof { d = d.push(Draw::Bg(theme.bg)); }
    let one = repeated(ch, 1);
    op_text(term, &one, Ghost(v0), Ghost(d));
    proof {
        assert(one@ =~= seq![ch]);
        d = d.push(Draw::Text(seq![ch]));
    }
    match label {
        Some(l) => {
            let cs = str_chars(l.as_str());
            let mut line: Vec<char> = Vec::new();
            line.push(' ');
            push_prefix(&mut line, cs.as_slice(), cs.len());
            op_text(term, &line, Ghost(v0), Ghost(d));
            proof {
                assert(take_chars(cs@, cs@.len()) =~= cs@);
                assert(line@ =~= seq![' '] + l@);
                d = d.push(Draw::Text(line@));
            }
        },
        None => {},
    }
    proof {
        let lv = match label {
            Some(l) => Some(l@),
            None => None,
        };
        assert(d =~= spinner_draws(r, spinner, ticks as nat, lv, *style, *theme));
    }
}

/// The row of typewriter text: the characters shown so far, cut to the
/// width; while it is still typing and there is room, a cursor block (or a
/// space) and padding.
pub open spec fn typewriter_row(text: Seq<char>, visible: nat, cursor_on: bool, w: int) -> Seq<char> {
    let shown = take_chars(text, visible);
    let n = shown.len() as int;
    if n < w {
        if n < text.len() {
            shown + seq![if cursor_on { '\u{2588}' } else { ' ' }] + spaces(minus(w, n + 1))
        } else {
            shown + spaces((w - n) as nat)
        }
    } else {
        take_chars(shown, w as nat)
    }
}

fn typewriter_line(text: &str, visible: usize, cursor_on: bool, w: usize) -> (line: Vec<char>)
    ensures
        line@ == typewriter_row(text@, visible as nat, cursor_on, w as int),
{
    let cs = str_chars(text);
    let mut shown: Vec<char> = Vec::new();
    push_prefix(&mut shown, cs.as_slice(), visible);
    let n = shown.len();
    let mut line: Vec<char> = Vec::new();
    if n < w {
        push_prefix(&mut line, shown.as_slice(), n);
        if n < cs.len() {
            line.push(if cursor_on { '\u{2588}' } else { ' ' });
            push_repeat(&mut line, ' ', w - (n + 1));
        } else {
            push_repeat(&mut line, ' ', w - n);
        }
    } else {
        push_prefix(&mut line, shown.as_slice(), w);
    }
    proof {
        assert(shown@ =~= take_chars(text@, visible as nat));
        assert(take_chars(shown@, n as nat) =~= shown@);
        assert(line@ =~= typewriter_row(text@, visible as nat, cursor_on, w as int));
    }
    line
}

/// The operations that draw typewriter text with `visible` characters out:
/// colors and attributes, then the characters shown so far, cut to the
/// width; while it is still typing and there is room, a cursor block (or a
/// space, when the cursor blinks off) and padding; then a reset.
pub open spec fn typewriter_draws(r: Rect, text: Seq<char>, visible: nat, cursor_on: bool, style: Style, t: Theme) -> Seq<Draw> {
    seq![Draw::Move(r.x, r.y), Draw::Fg(color_or(style.fg, t.fg)), Draw::Bg(color_or(style.bg, t.bg))] + attr_draws(style)
        + seq![Draw::Text(typewriter_row(text, visible, cursor_on, r.width as int)), Draw::Reset]
}

/// Draws typewriter text with `visible` characters out and the cursor on or off.
pub fn render_animated_text(term: &mut Term, r: Rect, text: &str, visible: usize, cursor_on: bool, style: &Style, theme: &Theme)
    requires
        old(term).wf(),
    ensures
        final(term).wf(),
        final(term)@ == run_draws(old(term)@, typewriter_draws(r, text@, visible as nat, cursor_on, *style, *theme)),
{
    let ghost v0 = term@;
    proof {
        lemma_run_empty(v0);
    }
    let fg = match style.fg {
        Some(c) => c,
        None => theme.fg,
    };
    let bg = match style.bg {
        Some(c) => c,
        None => theme.bg,
    };
    let ghost mut d: Seq<Draw> = seq![];
    op_move(term, r.x, r.y, Ghost(v0), Ghost(d));
    proof { d = d.push(Draw::Move(r.x, r.y)); }
    op_fg(term, fg, Ghost(v0), Ghost(d));
    proof { d = d.push(Draw::Fg(fg)); }
    op_bg(term, bg, Ghost(v0), Ghost(d));
    proof { d = d.push(Draw::Bg(bg)); }
    let ghost head = d;
    apply_attrs(term, style);
    proof {
        lemma_run_concat(v0, head, attr_draws(*style));
    }
    let ghost d1 = head + attr_draws(*style);
    let line = typewriter_line(text, visible, cursor_on, r.width as usize);
    op_text(term, &line, Ghost(v0), Ghost(d1));
    op_reset(term, Ghost(v0), Ghost(d1.push(Draw::Text(line@))));
    proof {
        assert(d1.push(Draw::Text(line@)).push(Draw::Reset) =~= typewriter_draws(r, text@, visible as nat, cursor_on, *style, *theme));
    }
}

// Progress bars.

/// How a progress bar is filled at this frame, worked out from its value.
pub struct BarFill {
    /// Cells filled: whole blocks, hashes or dots, by style.
    pub filled: usize,
    /// The smooth style's partial block, when its fraction shows: which of
    /// the eighth blocks (capped at the full one) and its color.
    pub partial: Option<(usize, (u8, u8, u8))>,
    /// The smooth style's colors of its whole blocks, left to right.
    pub colors: Vec<(u8, u8, u8)>,
    /// The percentage in the label.
    pub percent: u32,
}

/// The smooth style's blocks, one to eight eighths full.
pub open spec fn smooth_block(i: nat) -> char {
    if i == 0 {
        '\u{258F}'
    } else if i == 1 {
        '\u{258E}'
    } else if i == 2 {
        '\u{258D}'
    } else if i == 3 {
        '\u{258C}'
    } else if i == 4 {
        '\u{258B}'
    } else if i == 5 {
        '\u{258A}'
    } else if i == 6 {
        '\u{2589}'
    } else {
        '\u{2588}'
    }
}

fn smooth_block_char(i: usize) -> (c: char)
    ensures
        c == smooth_block(i as nat),
{
    if i == 0 {
        '\u{258F}'
    } else if i == 1 {
        '\u{258E}'
    } else if i == 2 {
        '\u{258D}'
    } else if i == 3 {
        '\u{258C}'
    } else if i == 4 {
        '\u{258B}'
    } else if i == 5 {
        '\u{258A}'
    } else if i == 6 {
        '\u{2589}'
    } else {
        '\u{2588}'
    }
}

/// The percentage label: a space, the number right-aligned in three columns, `%`.
pub open spec fn percent_label(p: nat) -> Seq<char> {
    seq![' '] + spaces(minus(3, digits(p).len() as int)) + digits(p) + seq!['%']
}

/// The width of a progress bar's track: the rectangle's width less five
/// columns for the label when shown, less the two brackets for the classic style.
pub open spec fn spec_progress_span(style: ProgressStyle, width: nat, show_label: bool) -> nat {
    let bar = minus(width as int, if show_label { 5 } else { 0 });
    match style {
        ProgressStyle::Classic => minus(bar as int, 2),
        _ => bar,
    }
}

/// The width of a progress bar's track (see `spec_progress_span`).
pub fn progress_span(style: ProgressStyle, width: u16, show_label: bool) -> (n: usize)
    ensures
        n == spec_progress_span(style, width as nat, show_label),
{
    let label_width: usize = if show_label { 5 } else { 0 };
    let w = width as usize;
    let bar = if w >= label_width { w - label_width } else { 0 };
    match style {
        ProgressStyle::Classic => if bar >= 2 { bar - 2 } else { 0 },
        _ => bar,
    }
}

/// The operations that draw a progress bar's track.
pub open spec fn track_draws(style: ProgressStyle, span: nat, fill_c: (u8, u8, u8), empty_c: (u8, u8, u8), f: BarFill) -> Seq<Draw> {
    match style {
        ProgressStyle::Smooth => {
            let k = if f.filled <= span { f.filled as nat } else { span };
            let part = match f.partial {
                Some(pc) => f.filled < span,
                None => false,
            };
            rows_draws(|i: int| seq![Draw::Fg(f.colors@[i]), Draw::Text(seq!['\u{2588}'])], 0, k as int) + (if part {
                let (idx, c) = f.partial.unwrap();
                seq![Draw::Fg(c), Draw::Text(seq![smooth_block(if idx <= 7 { idx as nat } else { 7 })])]
            } else {
                seq![]
            }) + seq![
                Draw::Fg(empty_c),
                Draw::Text(repeat_char('\u{2591}', minus(span as int, f.filled + if part { 1int } else { 0 }))),
            ]
        },
        ProgressStyle::Classic => seq![
            Draw::Fg(fill_c),
            Draw::Text(seq!['['] + repeat_char('#', f.filled as nat)),
            Draw::Fg(empty_c),
            Draw::Text(repeat_char('-', minus(span as int, f.filled as int))),
            Draw::Fg(fill_c),
            Draw::Text(seq![']']),
        ],
        ProgressStyle::Dot => seq![
            Draw::Fg(fill_c),
            Draw::Text(repeat_char('\u{25CF}', f.filled as nat)),
            Draw::Fg(empty_c),
            Draw::Text(repeat_char('\u{25CB}', minus(span as int, f.filled as int))),
        ],
    }
}

/// The operations that draw a progress bar: its track in the node's
/// background, then the percentage label when shown.
pub open spec fn progress_draws(
    r: Rect,
    style: ProgressStyle,
    fill_c: (u8, u8, u8),
    empty_c: (u8, u8, u8),
    show_label: bool,
    f: BarFill,
    node_style: Style,
    t: Theme,
) -> Seq<Draw> {
    let bg = color_or(node_style.bg, t.bg);
    seq![Draw::Move(r.x, r.y), Draw::Bg(bg)] + track_draws(style, spec_progress_span(style, r.width as nat, show_label), fill_c, empty_c, f)
        + (if show_label {
        seq![Draw::Fg(fill_c), Draw::Bg(bg), Draw::Text(percent_label(f.percent as nat))]
    } else {
        seq![]
    })
}

/// Whether a fill has a color for each whole block that the smooth style draws.
pub open spec fn fill_ok(style: ProgressStyle, span: nat, f: BarFill) -> bool {
    style == ProgressStyle::Smooth ==> f.colors@.len() >= if f.filled <= span { f.filled as nat } else { span }
}

fn draw_smooth_track(term: &mut Term, span: usize, empty_c: (u8, u8, u8), f: &BarFill, Ghost(v0): Ghost<TermView>, Ghost(ds): Ghost<Seq<Draw>>)
    requires
        old(term).wf(),
        old(term)@ == run_draws(v0, ds),
        fill_ok(ProgressStyle::Smooth, span as nat, *f),
    ensures
        final(term).wf(),
        final(term)@ == run_draws(v0, ds + track_draws(ProgressStyle::Smooth, span as nat, (0, 0, 0), empty_c, *f)),
{
    let k = if f.filled <= span { f.filled } else { span };
    let ghost g = |i: int| seq![Draw::Fg(f.colors@[i]), Draw::Text(seq!['\u{2588}'])];
    let block = repeated('\u{2588}', 1);
    proof {
        assert(block@ =~= seq!['\u{2588}']);
        assert(rows_draws(g, 0, 0) =~= seq![]);
        assert(ds + rows_draws(g, 0, 0) =~= ds);
    }
    let mut i: usize = 0;
    while i < k
        invariant
            0 <= i <= k,
            k <= f.colors@.len(),
            block@ == seq!['\u{2588}'],
            g == (|i: int| seq![Draw::Fg(f.colors@[i]), Draw::Text(seq!['\u{2588}'])]),
            term.wf(),
            term@ == run_draws(v0, ds + rows_draws(g, 0, i as int)),
        decreases k - i,
    {
        let c = f.colors[i];
        let ghost before = ds + rows_draws(g, 0, i as int);
        op_fg(term, c, Ghost(v0), Ghost(before));
        op_text(term, &block, Ghost(v0), Ghost(before.push(Draw::Fg(c))));
        proof {
            assert(rows_draws(g, 0, i + 1) == rows_draws(g, 0, i as int) + g(i as int));
            assert(before.push(Draw::Fg(c)).push(Draw::Text(block@)) =~= ds + rows_draws(g, 0, i + 1));
        }
        i = i + 1;
    }
    let ghost d1 = ds + rows_draws(g, 0, k as int);
    let mut drawn: usize = 0;
    let ghost mut d2 = d1;
    match f.partial {
        Some((idx, c)) => {
            if f.filled < span {
                let ch = smooth_block_char(if idx <= 7 { idx } else { 7 });
                op_fg(term, c, Ghost(v0), Ghost(d1));
                let one = repeated(ch, 1);
                op_text(term, &one, Ghost(v0), Ghost(d1.push(Draw::Fg(c))));
                proof {
                    assert(one@ =~= seq![ch]);
                    d2 = d1.push(Draw::Fg(c)).push(Draw::Text(seq![ch]));
                }
                drawn = 1;
            }
        },
        None => {},
    }
    let start: usize = if f.filled <= usize::MAX - drawn { f.filled + drawn } else { usize::MAX };
    let rest: usize = if span >= start { span - start } else { 0 };
    op_fg(term, empty_c, Ghost(v0), Ghost(d2));
    let tail = repeated('\u{2591}', rest);
    op_text(term, &tail, Ghost(v0), Ghost(d2.push(Draw::Fg(empty_c))));
    proof {
        let part = match f.partial {
            Some(pc) => f.filled < span,
            None => false,
        };
        assert(drawn == if part { 1int } else { 0 });
        assert(rest == minus(span as int, f.filled + if part { 1int } else { 0 }));
        let mid = if part {
            let (idx, c) = f.partial.unwrap();
            seq![Draw::Fg(c), Draw::Text(seq![smooth_block(if idx <= 7 { idx as nat } else { 7 })])]
        } else {
            seq![]
        };
        assert(d2 =~= d1 + mid);
        assert(d2.push(Draw::Fg(empty_c)).push(Draw::Text(tail@)) =~= ds + track_draws(ProgressStyle::Smooth, span as nat, (0, 0, 0), empty_c, *f));
    }
}

/// Draws a progress bar filled as `fill` says.
pub fn render_progress(
    term: &mut Term,
    r: Rect,
    style: ProgressStyle,
    fill_c: (u8, u8, u8),
    empty_c: (u8, u8, u8),
    show_label: bool,
    fill: &BarFill,
    node_style: &Style,
    theme: &Theme,
)
    requires
        old(term).wf(),
        fill_ok(style, spec_progress_span(style, r.width as nat, show_label), *fill),
    ensures
        final(term).wf(),
        final(term)@ == run_draws(old(term)@, progress_draws(r, style, fill_c, empty_c, show_label, *fill, *node_style, *theme)),
{
    let ghost v0 = term@;
    proof {
        lemma_run_empty(v0);
    }
    let bg = match node_style.bg {
        Some(c) => c,
        None => theme.bg,
    };
    let ghost mut d: Seq<Draw> = seq![];
    op_move(term, r.x, r.y, Ghost(v0), Ghost(d));
    proof { d = d.push(Draw::Move(r.x, r.y)); }
    op_bg(term, bg, Ghost(v0), Ghost(d));
    proof { d = d.push(Draw::Bg(bg)); }
    let span = progress_span(style, r.width, show_label);
    let ghost d1 = d;
    match style {
        ProgressStyle::Smooth => {
            draw_smooth_track(term, span, empty_c, fill, Ghost(v0), Ghost(d1));
        },
        ProgressStyle::Classic => {
            let mut left: Vec<char> = Vec::new();
            left.push('[');
            push_repeat(&mut left, '#', fill.filled);
            let empty = if span >= fill.filled { span - fill.filled } else { 0 };
            let dashes = repeated('-', empty);
            let close = repeated(']', 1);
            op_fg(term, fill_c, Ghost(v0), Ghost(d));
            proof { d = d.push(Draw::Fg(fill_c)); }
            op_text(term, &left, Ghost(v0), Ghost(d));
            proof { d = d.push(Draw::Text(left@)); }
            op_fg(term, empty_c, Ghost(v0), Ghost(d));
            proof { d = d.push(Draw::Fg(empty_c)); }
            op_text(term, &dashes, Ghost(v0), Ghost(d));
            proof { d = d.push(Draw::Text(dashes@)); }
            op_fg(term, fill_c, Ghost(v0), Ghost(d));
            proof { d = d.push(Draw::Fg(fill_c)); }
            op_text(term, &close, Ghost(v0), Ghost(d));
            proof {
                d = d.push(Draw::Text(close@));
                assert(left@ =~= seq!['['] + repeat_char('#', fill.filled as nat));
                assert(close@ =~= seq![']']);
                assert(d =~= d1 + track_draws(style, span as nat, fill_c, empty_c, *fill));
            }
        },
        ProgressStyle::Dot => {
            let dots = repeated('\u{25CF}', fill.filled);
            let empty = if span >= fill.filled { span - fill.filled } else { 0 };
            let rings = repeated('\u{25CB}', empty);
            op_fg(term, fill_c, Ghost(v0), Ghost(d));
            proof { d = d.push(Draw::Fg(fill_c)); }
            op_text(term, &dots, Ghost(v0), Ghost(d));
            proof { d = d.push(Draw::Text(dots@)); }
            op_fg(term, empty_c, Ghost(v0), Ghost(d));
            proof { d = d.push(Draw::Fg(empty_c)); }
            op_text(term, &rings, Ghost(v0), Ghost(d));
            proof {
                d = d.push(Draw::Text(rings@));
                assert(d =~= d1 + track_draws(style, span as nat, fill_c, empty_c, *fill));
            }
        },
    }
    let ghost d2 = d1 + track_draws(style, span as nat, fill_c, empty_c, *fill);
    if show_label {
        let mut label: Vec<char> = Vec::new();
        label.push(' ');
        let mut num: Vec<char> = Vec::new();
        push_digits(&mut num, fill.percent);
        let pad: usize = if num.len() < 3 { 3 - num.len() } else { 0 };
        push_repeat(&mut label, ' ', pad);
        push_prefix(&mut label, num.as_slice(), num.len());
        label.push('%');
        op_fg(term, fill_c, Ghost(v0), Ghost(d2));
        op_bg(term, bg, Ghost(v0), Ghost(d2.push(Draw::Fg(fill_c))));
        op_text(term, &label, Ghost(v0), Ghost(d2.push(Draw::Fg(fill_c)).push(Draw::Bg(bg))));
        proof {
            assert(num@ =~= digits(fill.percent as nat));
            assert(take_chars(num@, num@.len()) =~= num@);
            assert(label@ =~= percent_label(fill.percent as nat));
            assert(d2.push(Draw::Fg(fill_c)).push(Draw::Bg(bg)).push(Draw::Text(label@)) =~= progress_draws(r, style, fill_c, empty_c, show_label, *fill, *node_style, *theme));
        }
    } else {
        proof {
            assert(d2 =~= progress_draws(r, style, fill_c, empty_c, show_label, *fill, *node_style, *theme));
        }
    }
}

// Row widths.

/// A text node's row is exactly as wide as its rectangle, whatever the text
/// and alignment.
pub proof fn law_text_row_width(text: Seq<char>, width: nat, align: TextAlign)
    ensures
        text_row(text, width, align).len() == width,
{
}

/// A centered label row is exactly as wide as the inside it is centered in.
pub proof fn law_centered_width(t: Seq<char>, inner: nat)
    ensures
        centered(t, inner).len() == inner,
{
}

/// A typewriter row is exactly as wide as its rectangle.
pub proof fn law_typewriter_row_width(text: Seq<char>, visible: nat, cursor_on: bool, w: nat)
    ensures
        typewriter_row(text, visible, cursor_on, w as int).len() == w,
{
}

} // verus!
