//! Single-line status output with a spinner: what to write for each update.
//!
//! Each method returns the text to write to standard output; on a terminal
//! the line is redrawn in place, elsewhere messages go out as plain lines.
use vstd::prelude::*;

use crate::base::node::SpinnerStyle;
use crate::text::{chars_to_string, str_chars};
use crate::ui::ansi::{esc_reset, esc_rgb, push_all, push_rgb, push_sgr};
use crate::ui::spinner::{SpinnerFrames, spec_frames};

verus! {

/// Mathematical view of a status line.
pub struct StatusView {
    pub frames: Seq<char>,
    pub index: nat,
    pub message: Seq<char>,
    pub finished: bool,
    pub fg: Option<(u8, u8, u8)>,
    pub is_term: bool,
}

/// Single-line status output with an animated spinner.
pub struct StatusLine {
    spinner: SpinnerFrames,
    message: String,
    finished: bool,
    fg: Option<(u8, u8, u8)>,
    is_term: bool,
}

impl View for StatusLine {
    type V = StatusView;

    closed spec fn view(&self) -> StatusView {
        StatusView {
            frames: self.spinner.spec_frames(),
            index: self.spinner.spec_index(),
            message: self.message@,
            finished: self.finished,
            fg: self.fg,
            is_term: self.is_term,
        }
    }
}

/// `ESC [ K`: clear to the end of the line.
pub open spec fn esc_clear_line() -> Seq<char> {
    seq!['\u{1b}', '[', 'K']
}

/// The status line drawn with spinner frame `frame`: back to the line's
/// start, the frame (in the spinner color, when set), a space, the message,
/// and the rest of the line cleared.
pub open spec fn status_draw(v: StatusView, frame: char) -> Seq<char> {
    seq!['\r'] + match v.fg {
        Some(c) => esc_rgb('3', c) + seq![frame] + esc_reset(),
        None => seq![frame],
    } + seq![' '] + v.message + esc_clear_line()
}

/// The line cleared, the text written, and a line break.
pub open spec fn replace_line(text: Seq<char>) -> Seq<char> {
    seq!['\r'] + esc_clear_line() + text + seq!['\n']
}

impl StatusLine {
    /// The spinner's position is that of a frame.
    pub closed spec fn wf(&self) -> bool {
        self.spinner.wf()
    }

    /// A status line with a spinner of `style` and no message; `is_term`
    /// says whether standard output is a terminal.
    pub fn new(style: SpinnerStyle, is_term: bool) -> (s: Self)
        ensures
            s.wf(),
            s@ == (StatusView {
                frames: spec_frames(style),
                index: 0,
                message: Seq::empty(),
                finished: false,
                fg: None,
                is_term,
            }),
    {
        let s = StatusLine { spinner: SpinnerFrames::new(style), message: String::new(), finished: false, fg: None, is_term };
        proof {
            assert(s.message@ =~= Seq::<char>::empty());
        }
        s
    }

    /// Sets the spinner color.
    pub fn spinner_color(&mut self, r: u8, g: u8, b: u8) -> (out: &mut Self)
        requires
            old(self).wf(),
        ensures
            out.wf(),
            out@ == (StatusView { fg: Some((r, g, b)), ..old(self)@ }),
            *final(self) == *final(out),
    {
        self.fg = Some((r, g, b));
        self
    }

    /// Advances the spinner and returns the redrawn line.
    pub fn draw(&mut self) -> (text: String)
        requires
            old(self).wf(),
        ensures
            final(self).wf(),
            final(self)@ == (StatusView { index: ((old(self)@.index + 1) % old(self)@.frames.len()) as nat, ..old(self)@ }),
            text@ == status_draw(old(self)@, old(self)@.frames[old(self)@.index as int]),
    {
        let frame = self.spinner.tick();
        let mut out: Vec<char> = Vec::new();
        out.push('\r');
        match self.fg {
            Some(c) => {
                push_rgb(&mut out, '3', c);
                out.push(frame);
                push_sgr(&mut out, '0');
            },
            None => {
                out.push(frame);
            },
        }
        out.push(' ');
        let msg = str_chars(self.message.as_str());
        push_all(&mut out, msg.as_slice());
        out.push('\u{1b}');
        out.push('[');
        out.push('K');
        proof {
            assert(out@ =~= status_draw(old(self)@, frame));
        }
        chars_to_string(&out)
    }

    /// One beat of the steady tick: none once the status line has finished,
    /// which ends the ticking; else, on a terminal, the redrawn line (the
    /// spinner advancing), and off a terminal nothing to write.
    pub fn steady_tick(&mut self) -> (r: Option<String>)
        requires
            old(self).wf(),
        ensures
            final(self).wf(),
            old(self)@.finished ==> r is None && final(self)@ == old(self)@,
            !old(self)@.finished && old(self)@.is_term ==> (r matches Some(t) && t@ == status_draw(
                old(self)@,
                old(self)@.frames[old(self)@.index as int],
            ) && final(self)@ == (StatusView { index: ((old(self)@.index + 1) % old(self)@.frames.len()) as nat, ..old(self)@ })),
            !old(self)@.finished && !old(self)@.is_term ==> (r matches Some(t) && t@ == Seq::<char>::empty()
                && final(self)@ == old(self)@),
    {
        if self.finished {
            None
        } else if self.is_term {
            Some(self.draw())
        } else {
            let t = String::new();
            proof {
                assert(t@ =~= Seq::<char>::empty());
            }
            Some(t)
        }
    }

    /// Replaces the message. Off a terminal, the new message is written as a
    /// line of its own (unless the status line has finished); returns that line.
    pub fn set_message(&mut self, msg: &str) -> (echo: Option<String>)
        requires
            old(self).wf(),
        ensures
            final(self).wf(),
            final(self)@ == (StatusView { message: msg@, ..old(self)@ }),
            match echo {
                Some(t) => !old(self)@.is_term && !old(self)@.finished && t@ == msg@ + seq!['\n'],
                None => old(self)@.is_term || old(self)@.finished,
            },
    {
        self.message = line_of(msg, false);
        proof {
            assert(self.message@ =~= msg@);
        }
        if !self.is_term && !self.finished {
            Some(line_of(msg, true))
        } else {
            None
        }
    }

    /// Writes a line above the status line: on a terminal the status line is
    /// cleared, the message written on its own line, and the status line
    /// redrawn below (advancing the spinner) unless finished.
    pub fn println(&mut self, msg: &str) -> (text: String)
        requires
            old(self).wf(),
        ensures
            final(self).wf(),
            old(self)@.is_term && !old(self)@.finished ==> {
                &&& final(self)@ == (StatusView { index: ((old(self)@.index + 1) % old(self)@.frames.len()) as nat, ..old(self)@ })
                &&& text@ == replace_line(msg@) + status_draw(old(self)@, old(self)@.frames[old(self)@.index as int])
            },
            old(self)@.is_term && old(self)@.finished ==> final(self)@ == old(self)@ && text@ == replace_line(msg@),
            !old(self)@.is_term ==> final(self)@ == old(self)@ && text@ == msg@ + seq!['\n'],
    {
        if self.is_term {
            let head = cleared_line(msg);
            if !self.finished {
                let drawn = self.draw();
                let mut out = str_chars(head.as_str());
                let d = str_chars(drawn.as_str());
                push_all(&mut out, d.as_slice());
                chars_to_string(&out)
            } else {
                head
            }
        } else {
            line_of(msg, true)
        }
    }

    /// Stops the spinner and leaves the final message: on a terminal the
    /// status line is replaced by it; elsewhere it is written as a line.
    pub fn finish_with_message(&mut self, msg: &str) -> (text: String)
        requires
            old(self).wf(),
        ensures
            final(self).wf(),
            final(self)@ == (StatusView { finished: true, message: msg@, ..old(self)@ }),
            text@ == if old(self)@.is_term {
                replace_line(msg@)
            } else {
                msg@ + seq!['\n']
            },
    {
        self.finished = true;
        self.message = line_of(msg, false);
        proof {
            assert(self.message@ =~= msg@);
        }
        if self.is_term {
            cleared_line(msg)
        } else {
            line_of(msg, true)
        }
    }

    /// Stops the spinner and clears the line (on a terminal).
    pub fn finish_and_clear(&mut self) -> (text: String)
        requires
            old(self).wf(),
        ensures
            final(self).wf(),
            final(self)@ == (StatusView { finished: true, ..old(self)@ }),
            text@ == if old(self)@.is_term {
                seq!['\r'] + esc_clear_line()
            } else {
                Seq::empty()
            },
    {
        self.finished = true;
        let mut out: Vec<char> = Vec::new();
        if self.is_term {
            out.push('\r');
            out.push('\u{1b}');
            out.push('[');
            out.push('K');
        }
        proof {
            assert(out@ =~= if self.is_term {
                seq!['\r'] + esc_clear_line()
            } else {
                Seq::empty()
            });
        }
        chars_to_string(&out)
    }
}

/// `msg`, followed by a line break when `newline`.
fn line_of(msg: &str, newline: bool) -> (r: String)
    ensures
        r@ == if newline {
            msg@ + seq!['\n']
        } else {
            msg@
        },
{
    let mut out = str_chars(msg);
    if newline {
        out.push('\n');
    }
    proof {
        assert(out@ =~= if newline {
            msg@ + seq!['\n']
        } else {
            msg@
        });
    }
    chars_to_string(&out)
}

/// The line cleared and `msg` written on it, with a line break.
fn cleared_line(msg: &str) -> (r: String)
    ensures
        r@ == replace_line(msg@),
{
    let mut out: Vec<char> = Vec::new();
    out.push('\r');
    out.push('\u{1b}');
    out.push('[');
    out.push('K');
    let cs = str_chars(msg);
    push_all(&mut out, cs.as_slice());
    out.push('\n');
    proof {
        assert(out@ =~= replace_line(msg@));
    }
    chars_to_string(&out)
}

} // verus!
