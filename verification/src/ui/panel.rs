use vstd::prelude::*;

use crate::base::node::BorderStyle;
use crate::ui::ansi::{esc_reset, esc_rgb, esc_sgr, push_all, push_rgb, push_sgr};
use crate::text::{
    append_line, chars_to_string, join_lines, push_chars, push_prefix, push_repeat, repeat_char,
    sat_sub, str_chars, take_chars,
};

verus! {

/// (top-left, top-right, bottom-left, bottom-right, horizontal, vertical) of a border style.
pub open spec fn spec_border_chars(style: BorderStyle) -> (char, char, char, char, char, char) {
    match style {
        BorderStyle::Single => ('\u{250c}', '\u{2510}', '\u{2514}', '\u{2518}', '\u{2500}', '\u{2502}'),
        BorderStyle::Rounded => ('\u{256d}', '\u{256e}', '\u{2570}', '\u{256f}', '\u{2500}', '\u{2502}'),
        BorderStyle::Double => ('\u{2554}', '\u{2557}', '\u{255a}', '\u{255d}', '\u{2550}', '\u{2551}'),
        BorderStyle::Heavy => ('\u{250f}', '\u{2513}', '\u{2517}', '\u{251b}', '\u{2501}', '\u{2503}'),
        BorderStyle::Ascii => ('+', '+', '+', '+', '-', '|'),
    }
}

/// Returns (top-left, top-right, bottom-left, bottom-right, horizontal, vertical) chars.
pub fn border_chars(style: BorderStyle) -> (r: (char, char, char, char, char, char))
    ensures
        r == spec_border_chars(style),
{
    match style {
        BorderStyle::Single => ('\u{250c}', '\u{2510}', '\u{2514}', '\u{2518}', '\u{2500}', '\u{2502}'),
        BorderStyle::Rounded => ('\u{256d}', '\u{256e}', '\u{2570}', '\u{256f}', '\u{2500}', '\u{2502}'),
        BorderStyle::Double => ('\u{2554}', '\u{2557}', '\u{255a}', '\u{255d}', '\u{2550}', '\u{2551}'),
        BorderStyle::Heavy => ('\u{250f}', '\u{2513}', '\u{2517}', '\u{251b}', '\u{2501}', '\u{2503}'),
        BorderStyle::Ascii => ('+', '+', '+', '+', '-', '|'),
    }
}

/// Standalone bordered panel component with configurable style and colors.
pub struct Panel {
    pub title: Option<String>,
    pub border: BorderStyle,
    pub fg: (u8, u8, u8),
    pub bg: Option<(u8, u8, u8)>,
    pub shadow: bool,
    pub height: usize,
    pub content: Option<String>,
}

/// The top border: with a title, corner, one horizontal, a space, the title
/// cut to the inner width less two, a space, horizontals to fill; without,
/// horizontals between the corners.
pub open spec fn panel_top(p: Panel, inner: nat) -> Seq<char> {
    let (tl, tr, bl, br, h, v) = spec_border_chars(p.border);
    match p.title {
        Some(t) => {
            let shown = take_chars(t@, sat_sub(inner, 2));
            seq![tl, h, ' '] + shown + seq![' '] + repeat_char(h, sat_sub(inner, shown.len() + 2)) + seq![tr]
        },
        None => seq![tl] + repeat_char(h, inner) + seq![tr],
    }
}

/// Middle row `i`: the first one holds the content text (not cut), padded with
/// spaces; the others are blank.
pub open spec fn panel_middle(p: Panel, inner: nat, i: int) -> Seq<char> {
    let (tl, tr, bl, br, h, v) = spec_border_chars(p.border);
    if i == 0 && p.content is Some {
        let text = p.content.unwrap()@;
        seq![v] + text + repeat_char(' ', sat_sub(inner, text.len())) + seq![v]
    } else {
        seq![v] + repeat_char(' ', inner) + seq![v]
    }
}

/// The lines of a panel `width` columns wide and `height` rows high (at
/// least two: the borders). The shadow is not drawn.
pub open spec fn panel_lines(p: Panel, width: nat) -> Seq<Seq<char>> {
    let inner = sat_sub(width, 2);
    let (tl, tr, bl, br, h, v) = spec_border_chars(p.border);
    seq![panel_top(p, inner)] + Seq::new(sat_sub(p.height as nat, 2), |i: int| panel_middle(p, inner, i))
        + seq![seq![bl] + repeat_char(h, inner) + seq![br]]
}


/// The shadow's column mark, when the panel has a shadow.
pub open spec fn shadow_mark(on: bool) -> Seq<char> {
    if on {
        esc_rgb('3', (8, 8, 12)) + seq!['\u{2592}'] + esc_reset()
    } else {
        seq![]
    }
}

/// The text of an optional string.
pub open spec fn opt_chars(s: Option<String>) -> Option<Seq<char>> {
    match s {
        Some(t) => Some(t@),
        None => None,
    }
}

/// The top border as printed: in the border color, the title (cut to the
/// inside less two) in bold; then the shadow mark and a line break.
pub open spec fn panel_top_styled(title: Option<Seq<char>>, shadow: bool, inner: nat, fg_esc: Seq<char>, tl: char, h: char, tr: char) -> Seq<char> {
    (match title {
        Some(t) => {
            let shown = take_chars(t, sat_sub(inner, 2));
            fg_esc + seq![tl, h, ' '] + esc_sgr(seq!['1']) + shown + esc_reset() + fg_esc + seq![' '] + repeat_char(
                h,
                sat_sub(inner, shown.len() + 2),
            ) + seq![tr] + esc_reset()
        },
        None => fg_esc + seq![tl] + repeat_char(h, inner) + seq![tr] + esc_reset(),
    }) + shadow_mark(shadow) + seq!['\n']
}

/// The inside of middle row `i` as printed, on the background: the content
/// text (not cut) padded on the first row, spaces elsewhere.
pub open spec fn panel_inside_styled(content: Option<Seq<char>>, inner: nat, bg_esc: Seq<char>, i: int) -> Seq<char> {
    if i == 0 && content is Some {
        let text = content.unwrap();
        bg_esc + text + repeat_char(' ', sat_sub(inner, text.len())) + esc_reset()
    } else {
        bg_esc + repeat_char(' ', inner) + esc_reset()
    }
}

/// Middle row `i` as printed: the sides in the border color around the inside.
pub open spec fn panel_row_styled(content: Option<Seq<char>>, shadow: bool, inner: nat, fg_esc: Seq<char>, bg_esc: Seq<char>, v: char, i: int) -> Seq<char> {
    fg_esc + seq![v] + esc_reset() + panel_inside_styled(content, inner, bg_esc, i) + fg_esc + seq![v] + esc_reset()
        + shadow_mark(shadow) + seq!['\n']
}

/// The first `n` middle rows as printed.
pub open spec fn panel_rows_styled(content: Option<Seq<char>>, shadow: bool, inner: nat, fg_esc: Seq<char>, bg_esc: Seq<char>, v: char, n: nat) -> Seq<char>
    decreases n,
{
    if n == 0 {
        seq![]
    } else {
        panel_rows_styled(content, shadow, inner, fg_esc, bg_esc, v, (n - 1) as nat) + panel_row_styled(
            content,
            shadow,
            inner,
            fg_esc,
            bg_esc,
            v,
            n - 1,
        )
    }
}

/// What a panel prints: its top border, middle rows and bottom border, each
/// with the shadow mark when it has a shadow, then the shadow's bottom row.
pub open spec fn panel_styled(p: Panel, width: nat) -> Seq<char> {
    let inner = sat_sub(width, 2);
    let (tl, tr, bl, br, h, v) = spec_border_chars(p.border);
    let fg_esc = esc_rgb('3', p.fg);
    let bg_esc = match p.bg {
        Some(b) => esc_rgb('4', b),
        None => seq![],
    };
    panel_top_styled(opt_chars(p.title), p.shadow, inner, fg_esc, tl, h, tr) + panel_rows_styled(
        opt_chars(p.content),
        p.shadow,
        inner,
        fg_esc,
        bg_esc,
        v,
        sat_sub(p.height as nat, 2),
    ) + (fg_esc + seq![bl] + repeat_char(h, inner) + seq![br] + esc_reset() + shadow_mark(p.shadow) + seq!['\n']) + (
    if p.shadow {
        seq![' '] + esc_rgb('3', (8, 8, 12)) + repeat_char('\u{2592}', width) + esc_reset() + seq!['\n']
    } else {
        seq![]
    })
}

/// The shadow's bottom row: a space, then `width` shade characters.
fn shadow_below(width: usize) -> (line: Vec<char>)
    ensures
        line@ == seq![' '] + esc_rgb('3', (8, 8, 12)) + repeat_char('\u{2592}', width as nat) + esc_reset() + seq!['\n'],
{
    let mut line: Vec<char> = Vec::new();
    line.push(' ');
    push_rgb(&mut line, '3', (8, 8, 12));
    push_repeat(&mut line, '\u{2592}', width);
    push_sgr(&mut line, '0');
    line.push('\n');
    proof {
        assert(line@ =~= seq![' '] + esc_rgb('3', (8, 8, 12)) + repeat_char('\u{2592}', width as nat) + esc_reset() + seq!['\n']);
    }
    line
}

fn push_shadow_mark(out: &mut Vec<char>, on: bool)
    ensures
        final(out)@ == old(out)@ + shadow_mark(on),
{
    if on {
        let ghost o = out@;
        push_rgb(out, '3', (8, 8, 12));
        out.push('\u{2592}');
        push_sgr(out, '0');
        proof {
            assert(out@ =~= o + shadow_mark(on));
        }
    } else {
        assert(old(out)@ + shadow_mark(on) =~= old(out)@);
    }
}

impl Panel {
    pub fn new(title: &str) -> (p: Self)
        ensures
            p.title matches Some(t) && t@ == title@,
            p.border == BorderStyle::Single,
            p.fg == (70u8, 70u8, 90u8),
            p.bg is None,
            !p.shadow,
            p.height == 5,
            p.content is None,
    {
        Panel {
            title: Some(String::from_str(title)),
            border: BorderStyle::Single,
            fg: (70, 70, 90),
            bg: None,
            shadow: false,
            height: 5,
            content: None,
        }
    }

    pub fn untitled() -> (p: Self)
        ensures
            p.title is None,
            p.border == BorderStyle::Single,
            p.fg == (70u8, 70u8, 90u8),
            p.bg is None,
            !p.shadow,
            p.height == 5,
            p.content is None,
    {
        Panel {
            title: None,
            border: BorderStyle::Single,
            fg: (70, 70, 90),
            bg: None,
            shadow: false,
            height: 5,
            content: None,
        }
    }

    pub fn with_border(self, style: BorderStyle) -> (p: Self)
        ensures
            p == (Panel { border: style, ..self }),
    {
        let mut s = self;
        s.border = style;
        s
    }

    pub fn with_colors(self, fg: (u8, u8, u8), bg: (u8, u8, u8)) -> (p: Self)
        ensures
            p == (Panel { fg, bg: Some(bg), ..self }),
    {
        let mut s = self;
        s.fg = fg;
        s.bg = Some(bg);
        s
    }

    pub fn with_shadow(self) -> (p: Self)
        ensures
            p == (Panel { shadow: true, ..self }),
    {
        let mut s = self;
        s.shadow = true;
        s
    }

    pub fn with_height(self, h: usize) -> (p: Self)
        ensures
            p == (Panel { height: h, ..self }),
    {
        let mut s = self;
        s.height = h;
        s
    }

    pub fn with_content(self, text: &str) -> (p: Self)
        ensures
            p.content matches Some(c) && c@ == text@,
            p.title == self.title,
            p.border == self.border,
            p.fg == self.fg,
            p.bg == self.bg,
            p.shadow == self.shadow,
            p.height == self.height,
    {
        let mut s = self;
        s.content = Some(String::from_str(text));
        s
    }

    fn top_line(&self, inner: usize) -> (r: Vec<char>)
        ensures
            r@ == panel_top(*self, inner as nat),
    {
        let (tl, tr, _bl, _br, h, _v) = border_chars(self.border);
        let mut r: Vec<char> = Vec::new();
        match &self.title {
            Some(t) => {
                let tc = str_chars(t.as_str());
                r.push(tl);
                r.push(h);
                r.push(' ');
                let before = r.len();
                push_prefix(&mut r, tc.as_slice(), inner.saturating_sub(2));
                let shown_len = r.len() - before;
                r.push(' ');
                push_repeat(&mut r, h, inner.saturating_sub(shown_len + 2));
                r.push(tr);
                proof {
                    let shown = take_chars(t@, sat_sub(inner as nat, 2));
                    assert(r@ =~= seq![tl, h, ' '] + shown + seq![' '] + repeat_char(
                        h,
                        sat_sub(inner as nat, shown.len() + 2),
                    ) + seq![tr]);
                }
            },
            None => {
                r.push(tl);
                push_repeat(&mut r, h, inner);
                r.push(tr);
                proof {
                    assert(r@ =~= seq![tl] + repeat_char(h, inner as nat) + seq![tr]);
                }
            },
        }
        r
    }

    fn middle_line(&self, inner: usize, i: usize) -> (r: Vec<char>)
        ensures
            r@ == panel_middle(*self, inner as nat, i as int),
    {
        let (_tl, _tr, _bl, _br, _h, v) = border_chars(self.border);
        let mut r: Vec<char> = Vec::new();
        r.push(v);
        match &self.content {
            Some(text) => {
                if i == 0 {
                    let tc = str_chars(text.as_str());
                    push_chars(&mut r, tc.as_slice());
                    push_repeat(&mut r, ' ', inner.saturating_sub(tc.len()));
                } else {
                    push_repeat(&mut r, ' ', inner);
                }
            },
            None => {
                push_repeat(&mut r, ' ', inner);
            },
        }
        r.push(v);
        proof {
            assert(r@ =~= panel_middle(*self, inner as nat, i as int));
        }
        r
    }

    /// Render this panel to a plain multi-line string. Shadow is not rendered.
    pub fn render(&self, width: usize) -> (r: String)
        ensures
            r@ == join_lines(panel_lines(*self, width as nat)),
    {
        let (_tl, _tr, bl, br, h, _v) = border_chars(self.border);
        let inner = width.saturating_sub(2);
        let ghost lines = panel_lines(*self, width as nat);
        let mut out: Vec<char> = Vec::new();
        let top = self.top_line(inner);
        let ghost ls0: Seq<Seq<char>> = Seq::empty();
        append_line(&mut out, top.as_slice(), true, Ghost(ls0));
        let middle_rows = self.height.saturating_sub(2);
        let mut i: usize = 0;
        while i < middle_rows
            invariant
                0 <= i <= middle_rows,
                middle_rows == sat_sub(self.height as nat, 2),
                inner == sat_sub(width as nat, 2),
                out@ == join_lines(seq![top@] + Seq::new(i as nat, |k: int| panel_middle(*self, inner as nat, k))),
                top@ == panel_top(*self, inner as nat),
            decreases middle_rows - i,
        {
            let line = self.middle_line(inner, i);
            let ghost cur = seq![top@] + Seq::new(i as nat, |k: int| panel_middle(*self, inner as nat, k));
            append_line(&mut out, line.as_slice(), false, Ghost(cur));
            proof {
                assert(cur.push(line@) =~= seq![top@] + Seq::new((i + 1) as nat, |k: int| panel_middle(*self, inner as nat, k)));
            }
            i = i + 1;
        }
        let mut bottom: Vec<char> = Vec::new();
        bottom.push(bl);
        push_repeat(&mut bottom, h, inner);
        bottom.push(br);
        let ghost cur = seq![top@] + Seq::new(middle_rows as nat, |k: int| panel_middle(*self, inner as nat, k));
        append_line(&mut out, bottom.as_slice(), false, Ghost(cur));
        proof {
            assert(bottom@ =~= seq![bl] + repeat_char(h, inner as nat) + seq![br]);
            assert(cur.push(bottom@) =~= lines);
        }
        chars_to_string(&out)
    }

    fn push_top_styled(&self, out: &mut Vec<char>, inner: usize, fg_esc: &Vec<char>, tl: char, h: char, tr: char)
        ensures
            final(out)@ == old(out)@ + panel_top_styled(opt_chars(self.title), self.shadow, inner as nat, fg_esc@, tl, h, tr),
    {
        let mut line: Vec<char> = Vec::new();
        match &self.title {
            Some(t) => {
                let cs = str_chars(t.as_str());
                let avail = inner.saturating_sub(2);
                let mut shown: Vec<char> = Vec::new();
                push_prefix(&mut shown, cs.as_slice(), avail);
                let right_fill = inner.saturating_sub(shown.len() + 2);
                push_all(&mut line, fg_esc.as_slice());
                line.push(tl);
                line.push(h);
                line.push(' ');
                push_sgr(&mut line, '1');
                push_all(&mut line, shown.as_slice());
                push_sgr(&mut line, '0');
                push_all(&mut line, fg_esc.as_slice());
                line.push(' ');
                push_repeat(&mut line, h, right_fill);
                line.push(tr);
                push_sgr(&mut line, '0');
            },
            None => {
                push_all(&mut line, fg_esc.as_slice());
                line.push(tl);
                push_repeat(&mut line, h, inner);
                line.push(tr);
                push_sgr(&mut line, '0');
            },
        }
        let ghost a = line@;
        proof {
            assert(a =~= match opt_chars(self.title) {
                Some(t) => {
                    let shown = take_chars(t, sat_sub(inner as nat, 2));
                    fg_esc@ + seq![tl, h, ' '] + esc_sgr(seq!['1']) + shown + esc_reset() + fg_esc@ + seq![' '] + repeat_char(
                        h,
                        sat_sub(inner as nat, shown.len() + 2),
                    ) + seq![tr] + esc_reset()
                },
                None => fg_esc@ + seq![tl] + repeat_char(h, inner as nat) + seq![tr] + esc_reset(),
            });
        }
        push_shadow_mark(&mut line, self.shadow);
        line.push('\n');
        proof {
            assert(line@ =~= panel_top_styled(opt_chars(self.title), self.shadow, inner as nat, fg_esc@, tl, h, tr));
        }
        push_all(out, line.as_slice());
    }

    fn push_inside_styled(&self, out: &mut Vec<char>, inner: usize, bg_esc: &Vec<char>, i: usize)
        ensures
            final(out)@ == old(out)@ + panel_inside_styled(opt_chars(self.content), inner as nat, bg_esc@, i as int),
    {
        let mut line: Vec<char> = Vec::new();
        push_all(&mut line, bg_esc.as_slice());
        match &self.content {
            Some(text) => {
                if i == 0 {
                    let cs = str_chars(text.as_str());
                    push_all(&mut line, cs.as_slice());
                    push_repeat(&mut line, ' ', inner.saturating_sub(cs.len()));
                } else {
                    push_repeat(&mut line, ' ', inner);
                }
            },
            None => {
                push_repeat(&mut line, ' ', inner);
            },
        }
        push_sgr(&mut line, '0');
        proof {
            assert(line@ =~= panel_inside_styled(opt_chars(self.content), inner as nat, bg_esc@, i as int));
        }
        push_all(out, line.as_slice());
    }

    fn push_row_styled(&self, out: &mut Vec<char>, inner: usize, fg_esc: &Vec<char>, bg_esc: &Vec<char>, v: char, i: usize)
        ensures
            final(out)@ == old(out)@ + panel_row_styled(opt_chars(self.content), self.shadow, inner as nat, fg_esc@, bg_esc@, v, i as int),
    {
        let mut line: Vec<char> = Vec::new();
        push_all(&mut line, fg_esc.as_slice());
        line.push(v);
        push_sgr(&mut line, '0');
        self.push_inside_styled(&mut line, inner, bg_esc, i);
        push_all(&mut line, fg_esc.as_slice());
        line.push(v);
        push_sgr(&mut line, '0');
        push_shadow_mark(&mut line, self.shadow);
        line.push('\n');
        proof {
            assert(line@ =~= panel_row_styled(opt_chars(self.content), self.shadow, inner as nat, fg_esc@, bg_esc@, v, i as int));
        }
        push_all(out, line.as_slice());
    }

    fn bottom_styled(&self, fg_esc: &Vec<char>, inner: usize, bl: char, h: char, br: char) -> (line: Vec<char>)
        ensures
            line@ == fg_esc@ + seq![bl] + repeat_char(h, inner as nat) + seq![br] + esc_reset() + shadow_mark(self.shadow) + seq!['\n'],
    {
        let mut line: Vec<char> = Vec::new();
        push_all(&mut line, fg_esc.as_slice());
        line.push(bl);
        push_repeat(&mut line, h, inner);
        line.push(br);
        push_sgr(&mut line, '0');
        push_shadow_mark(&mut line, self.shadow);
        line.push('\n');
        proof {
            assert(line@ =~= fg_esc@ + seq![bl] + repeat_char(h, inner as nat) + seq![br] + esc_reset() + shadow_mark(self.shadow) + seq!['\n']);
        }
        line
    }

    /// The text `print` writes: the panel's lines with their colors and the
    /// shadow (see `panel_styled`).
    pub fn styled(&self, width: usize) -> (r: String)
        ensures
            r@ == panel_styled(*self, width as nat),
    {
        let (tl, tr, bl, br, h, v) = border_chars(self.border);
        let inner = width.saturating_sub(2);
        let mut fg_esc: Vec<char> = Vec::new();
        push_rgb(&mut fg_esc, '3', self.fg);
        let mut bg_esc: Vec<char> = Vec::new();
        match self.bg {
            Some(b) => push_rgb(&mut bg_esc, '4', b),
            None => {},
        }
        proof {
            assert(bg_esc@ =~= match self.bg {
                Some(b) => esc_rgb('4', b),
                None => seq![],
            });
        }
        let mut out: Vec<char> = Vec::new();
        self.push_top_styled(&mut out, inner, &fg_esc, tl, h, tr);
        let ghost top = panel_top_styled(opt_chars(self.title), self.shadow, inner as nat, fg_esc@, tl, h, tr);
        proof {
            assert(out@ =~= top);
        }
        let middle_rows = self.height.saturating_sub(2);
        let mut i: usize = 0;
        while i < middle_rows
            invariant
                0 <= i <= middle_rows,
                out@ == top + panel_rows_styled(opt_chars(self.content), self.shadow, inner as nat, fg_esc@, bg_esc@, v, i as nat),
            decreases middle_rows - i,
        {
            self.push_row_styled(&mut out, inner, &fg_esc, &bg_esc, v, i);
            proof {
                assert(out@ =~= top + panel_rows_styled(opt_chars(self.content), self.shadow, inner as nat, fg_esc@, bg_esc@, v, (i + 1) as nat));
            }
            i = i + 1;
        }
        let bottom = self.bottom_styled(&fg_esc, inner, bl, h, br);
        push_all(&mut out, bottom.as_slice());
        let ghost c = out@;
        if self.shadow {
            let below = shadow_below(width);
            push_all(&mut out, below.as_slice());
        } else {
            proof {
                assert(c + seq![] =~= c);
            }
        }
        chars_to_string(&out)
    }
}

} // verus!
