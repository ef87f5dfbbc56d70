use vstd::prelude::*;

use crate::ui::ansi::{esc_reset, esc_rgb, esc_sgr, push_all, push_rgb, push_sgr};
use crate::text::{
    chars_to_string, push_chars, push_prefix, push_repeat, repeat_char, str_chars, take_chars,
};

verus! {

/// Text alignment for standalone label.
pub enum LabelAlign {
    Left,
    Center,
    Right,
}

/// Standalone styled text label.
pub struct Label {
    pub text: String,
    pub fg: (u8, u8, u8),
    pub bg: Option<(u8, u8, u8)>,
    pub bold: bool,
    pub dim: bool,
    pub italic: bool,
    pub underline: bool,
    pub strikethrough: bool,
    pub align: LabelAlign,
}

/// `t` padded with spaces to `width` characters according to `align`
/// (centering puts the odd space on the right); `t` as is when it is not shorter.
pub open spec fn aligned(t: Seq<char>, width: nat, align: LabelAlign) -> Seq<char> {
    if t.len() >= width {
        t
    } else {
        let gap = (width - t.len()) as nat;
        match align {
            LabelAlign::Left => t + repeat_char(' ', gap),
            LabelAlign::Right => repeat_char(' ', gap) + t,
            LabelAlign::Center => repeat_char(' ', gap / 2) + t + repeat_char(' ', (gap - gap / 2) as nat),
        }
    }
}

/// The text a label shows in `width` columns: its first `width` characters
/// when it is longer than that, else all of it.
pub open spec fn label_text(t: Seq<char>, width: nat) -> Seq<char> {
    take_chars(t, width)
}

/// An attribute switch when `on`, else nothing.
pub open spec fn sgr_if(on: bool, code: char) -> Seq<char> {
    if on {
        esc_sgr(seq![code])
    } else {
        seq![]
    }
}

/// What a label prints in `width` columns: its color, background and
/// attribute switches, its rendered text, then a reset.
pub open spec fn label_styled(l: Label, width: nat) -> Seq<char> {
    esc_rgb('3', l.fg) + (match l.bg {
        Some(b) => esc_rgb('4', b),
        None => seq![],
    }) + sgr_if(l.bold, '1') + sgr_if(l.dim, '2') + sgr_if(l.italic, '3') + sgr_if(l.underline, '4') + sgr_if(
        l.strikethrough,
        '9',
    ) + aligned(label_text(l.text@, width), width, l.align) + esc_reset()
}

fn push_sgr_if(out: &mut Vec<char>, on: bool, code: char)
    ensures
        final(out)@ == old(out)@ + sgr_if(on, code),
{
    if on {
        push_sgr(out, code);
    } else {
        assert(old(out)@ + sgr_if(on, code) =~= old(out)@);
    }
}

impl Label {
    pub fn new(text: &str) -> (l: Self)
        ensures
            l.text@ == text@,
            l.fg == (200u8, 200u8, 210u8),
            l.bg is None,
            !l.bold && !l.dim && !l.italic && !l.underline && !l.strikethrough,
            l.align is Left,
    {
        Label {
            text: String::from_str(text),
            fg: (200, 200, 210),
            bg: None,
            bold: false,
            dim: false,
            italic: false,
            underline: false,
            strikethrough: false,
            align: LabelAlign::Left,
        }
    }

    pub fn with_fg(self, r: u8, g: u8, b: u8) -> (l: Self)
        ensures
            l == (Label { fg: (r, g, b), ..self }),
    {
        let mut s = self;
        s.fg = (r, g, b);
        s
    }

    pub fn with_bg(self, r: u8, g: u8, b: u8) -> (l: Self)
        ensures
            l == (Label { bg: Some((r, g, b)), ..self }),
    {
        let mut s = self;
        s.bg = Some((r, g, b));
        s
    }

    pub fn bold(self) -> (l: Self)
        ensures
            l == (Label { bold: true, ..self }),
    {
        let mut s = self;
        s.bold = true;
        s
    }

    pub fn dim(self) -> (l: Self)
        ensures
            l == (Label { dim: true, ..self }),
    {
        let mut s = self;
        s.dim = true;
        s
    }

    pub fn italic(self) -> (l: Self)
        ensures
            l == (Label { italic: true, ..self }),
    {
        let mut s = self;
        s.italic = true;
        s
    }

    pub fn underline(self) -> (l: Self)
        ensures
            l == (Label { underline: true, ..self }),
    {
        let mut s = self;
        s.underline = true;
        s
    }

    pub fn strikethrough(self) -> (l: Self)
        ensures
            l == (Label { strikethrough: true, ..self }),
    {
        let mut s = self;
        s.strikethrough = true;
        s
    }

    pub fn center(self) -> (l: Self)
        ensures
            l == (Label { align: LabelAlign::Center, ..self }),
    {
        let mut s = self;
        s.align = LabelAlign::Center;
        s
    }

    pub fn right(self) -> (l: Self)
        ensures
            l == (Label { align: LabelAlign::Right, ..self }),
    {
        let mut s = self;
        s.align = LabelAlign::Right;
        s
    }

    /// Render this label to a plain string padded/truncated to `width`
    /// characters. Returns aligned text without ANSI escape codes.
    pub fn render(&self, width: usize) -> (r: String)
        ensures
            r@ == aligned(label_text(self.text@, width as nat), width as nat, self.align),
            r@.len() == width,
    {
        let cs = str_chars(self.text.as_str());
        let mut shown: Vec<char> = Vec::new();
        push_prefix(&mut shown, cs.as_slice(), width);
        proof {
            assert(shown@ =~= label_text(self.text@, width as nat));
        }
        let n = shown.len();
        let mut out: Vec<char> = Vec::new();
        if n >= width {
            push_chars(&mut out, shown.as_slice());
        } else {
            let gap = width - n;
            match self.align {
                LabelAlign::Left => {
                    push_chars(&mut out, shown.as_slice());
                    push_repeat(&mut out, ' ', gap);
                },
                LabelAlign::Right => {
                    push_repeat(&mut out, ' ', gap);
                    push_chars(&mut out, shown.as_slice());
                },
                LabelAlign::Center => {
                    push_repeat(&mut out, ' ', gap / 2);
                    push_chars(&mut out, shown.as_slice());
                    push_repeat(&mut out, ' ', gap - gap / 2);
                },
            }
        }
        proof {
            assert(out@ =~= aligned(shown@, width as nat, self.align));
        }
        chars_to_string(&out)
    }

    /// The text `print` writes: the rendered label with its colors and
    /// attributes (see `label_styled`).
    pub fn styled(&self, width: usize) -> (r: String)
        ensures
            r@ == label_styled(*self, width as nat),
    {
        let mut out: Vec<char> = Vec::new();
        push_rgb(&mut out, '3', self.fg);
        match self.bg {
            Some(b) => push_rgb(&mut out, '4', b),
            None => {},
        }
        let ghost a = out@;
        push_sgr_if(&mut out, self.bold, '1');
        push_sgr_if(&mut out, self.dim, '2');
        push_sgr_if(&mut out, self.italic, '3');
        push_sgr_if(&mut out, self.underline, '4');
        push_sgr_if(&mut out, self.strikethrough, '9');
        let ghost b = out@;
        let text = self.render(width);
        let cs = str_chars(text.as_str());
        push_all(&mut out, cs.as_slice());
        push_sgr(&mut out, '0');
        proof {
            assert(a =~= esc_rgb('3', self.fg) + (match self.bg {
                Some(c) => esc_rgb('4', c),
                None => seq![],
            }));
            assert(out@ =~= label_styled(*self, width as nat));
        }
        chars_to_string(&out)
    }
}

} // verus!
