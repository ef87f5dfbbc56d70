//! Text of the standalone progress bar, plain and styled, from its fill
//! worked out in whole cells and eighths.
use vstd::prelude::*;

use crate::base::node::ProgressStyle;
use crate::text::{chars_to_string, digits, push_digits, push_repeat, repeat_char};
use crate::ui::ansi::{esc_reset, esc_rgb, push_all, push_rgb, push_sgr};
use crate::ui::render::{minus, percent_label};

verus! {

/// The smooth style's partial cell by eighths filled (0 to 7).
pub open spec fn eighth_block(i: nat) -> char {
    if i == 0 {
        ' '
    } else if i == 1 {
        '\u{258f}'
    } else if i == 2 {
        '\u{258e}'
    } else if i == 3 {
        '\u{258d}'
    } else if i == 4 {
        '\u{258c}'
    } else if i == 5 {
        '\u{258b}'
    } else if i == 6 {
        '\u{258a}'
    } else {
        '\u{2589}'
    }
}

fn eighth_block_char(i: usize) -> (c: char)
    requires
        i < 8,
    ensures
        c == eighth_block(i as nat),
{
    if i == 0 {
        ' '
    } else if i == 1 {
        '\u{258f}'
    } else if i == 2 {
        '\u{258e}'
    } else if i == 3 {
        '\u{258d}'
    } else if i == 4 {
        '\u{258c}'
    } else if i == 5 {
        '\u{258b}'
    } else if i == 6 {
        '\u{258a}'
    } else {
        '\u{2589}'
    }
}

/// The label after a bar: the percentage, when shown.
pub open spec fn opt_label(label: Option<u32>) -> Seq<char> {
    match label {
        Some(p) => percent_label(p as nat),
        None => seq![],
    }
}

/// The plain text of a bar `width` cells wide with `fill` full cells and
/// `eighths` eighths of a cell in all: for the smooth style the full blocks,
/// then (when not full) the partial block and light shade; brackets around
/// hashes and dashes for the classic style; full and empty dots for the dot
/// style; then the label.
pub open spec fn bar_text(style: ProgressStyle, width: nat, fill: nat, eighths: nat, label: Option<u32>) -> Seq<char> {
    (match style {
        ProgressStyle::Smooth => repeat_char('\u{2588}', fill) + (if fill < width {
            seq![eighth_block(eighths % 8)] + repeat_char('\u{2591}', minus(width as int, fill + 1int))
        } else {
            seq![]
        }),
        ProgressStyle::Classic => seq!['['] + repeat_char('#', fill) + repeat_char('-', minus(width as int, fill as int))
            + seq![']'],
        ProgressStyle::Dot => repeat_char('\u{25cf}', fill) + repeat_char('\u{25cb}', minus(width as int, fill as int)),
    }) + opt_label(label)
}

/// A spinner frame and a space before the bar, when the bar has a spinner.
pub open spec fn spinner_prefix(frame: Option<char>) -> Seq<char> {
    match frame {
        Some(c) => seq![c, ' '],
        None => seq![],
    }
}

/// What a bar prints: a carriage return, the spinner frame (when it has
/// one), the bar in the fill color with its empty part in the empty color,
/// the label after a reset, a reset.
pub open spec fn bar_line(
    style: ProgressStyle,
    width: nat,
    fill: nat,
    eighths: nat,
    fill_c: (u8, u8, u8),
    empty_c: (u8, u8, u8),
    label: Option<u32>,
    frame: Option<char>,
) -> Seq<char> {
    seq!['\r'] + spinner_prefix(frame) + esc_rgb('3', fill_c) + (match style {
        ProgressStyle::Smooth => repeat_char('\u{2588}', fill) + (if fill < width {
            seq![eighth_block(eighths % 8)] + esc_rgb('3', empty_c) + repeat_char('\u{2591}', minus(width as int, fill + 1int))
        } else {
            seq![]
        }),
        ProgressStyle::Classic => seq!['['] + repeat_char('#', fill) + esc_rgb('3', empty_c) + repeat_char(
            '-',
            minus(width as int, fill as int),
        ) + seq![']'],
        ProgressStyle::Dot => repeat_char('\u{25cf}', fill) + esc_rgb('3', empty_c) + repeat_char(
            '\u{25cb}',
            minus(width as int, fill as int),
        ),
    }) + (match label {
        Some(p) => esc_reset() + percent_label(p as nat),
        None => seq![],
    }) + esc_reset()
}

fn push_percent(out: &mut Vec<char>, p: u32)
    ensures
        final(out)@ == old(out)@ + percent_label(p as nat),
{
    let ghost o = out@;
    let mut num: Vec<char> = Vec::new();
    push_digits(&mut num, p);
    out.push(' ');
    let pad: usize = if num.len() < 3 { 3 - num.len() } else { 0 };
    push_repeat(out, ' ', pad);
    push_all(out, num.as_slice());
    out.push('%');
    proof {
        assert(num@ =~= digits(p as nat));
        assert(out@ =~= o + percent_label(p as nat));
    }
}

fn push_opt_label(out: &mut Vec<char>, label: Option<u32>)
    ensures
        final(out)@ == old(out)@ + opt_label(label),
{
    match label {
        Some(p) => push_percent(out, p),
        None => {
            assert(old(out)@ + opt_label(label) =~= old(out)@);
        },
    }
}

/// The plain text of a progress bar (see `bar_text`).
pub fn progress_text(style: ProgressStyle, width: usize, fill: usize, eighths: usize, label: Option<u32>) -> (r: String)
    ensures
        r@ == bar_text(style, width as nat, fill as nat, eighths as nat, label),
{
    let mut out: Vec<char> = Vec::new();
    match style {
        ProgressStyle::Smooth => {
            push_repeat(&mut out, '\u{2588}', fill);
            if fill < width {
                out.push(eighth_block_char(eighths % 8));
                push_repeat(&mut out, '\u{2591}', width - (fill + 1));
            }
        },
        ProgressStyle::Classic => {
            out.push('[');
            push_repeat(&mut out, '#', fill);
            push_repeat(&mut out, '-', width.saturating_sub(fill));
            out.push(']');
        },
        ProgressStyle::Dot => {
            push_repeat(&mut out, '\u{25cf}', fill);
            push_repeat(&mut out, '\u{25cb}', width.saturating_sub(fill));
        },
    }
    let ghost body = out@;
    push_opt_label(&mut out, label);
    proof {
        assert(body =~= match style {
            ProgressStyle::Smooth => repeat_char('\u{2588}', fill as nat) + (if fill < width {
                seq![eighth_block((eighths % 8) as nat)] + repeat_char('\u{2591}', minus(width as int, fill + 1int))
            } else {
                seq![]
            }),
            ProgressStyle::Classic => seq!['['] + repeat_char('#', fill as nat) + repeat_char('-', minus(width as int, fill as int))
                + seq![']'],
            ProgressStyle::Dot => repeat_char('\u{25cf}', fill as nat) + repeat_char('\u{25cb}', minus(width as int, fill as int)),
        });
    }
    chars_to_string(&out)
}

/// The text a progress bar prints (see `bar_line`).
#[verifier::rlimit(30)]
pub fn progress_line(
    style: ProgressStyle,
    width: usize,
    fill: usize,
    eighths: usize,
    fill_c: (u8, u8, u8),
    empty_c: (u8, u8, u8),
    label: Option<u32>,
    frame: Option<char>,
) -> (r: String)
    ensures
        r@ == bar_line(style, width as nat, fill as nat, eighths as nat, fill_c, empty_c, label, frame),
{
    let mut out: Vec<char> = Vec::new();
    out.push('\r');
    match frame {
        Some(c) => {
            out.push(c);
            out.push(' ');
        },
        None => {},
    }
    proof {
        assert(out@ =~= seq!['\r'] + spinner_prefix(frame));
    }
    push_rgb(&mut out, '3', fill_c);
    let ghost head = out@;
    match style {
        ProgressStyle::Smooth => {
            push_repeat(&mut out, '\u{2588}', fill);
            if fill < width {
                out.push(eighth_block_char(eighths % 8));
                push_rgb(&mut out, '3', empty_c);
                push_repeat(&mut out, '\u{2591}', width - (fill + 1));
            }
        },
        ProgressStyle::Classic => {
            out.push('[');
            push_repeat(&mut out, '#', fill);
            push_rgb(&mut out, '3', empty_c);
            push_repeat(&mut out, '-', width.saturating_sub(fill));
            out.push(']');
        },
        ProgressStyle::Dot => {
            push_repeat(&mut out, '\u{25cf}', fill);
            push_rgb(&mut out, '3', empty_c);
            push_repeat(&mut out, '\u{25cb}', width.saturating_sub(fill));
        },
    }
    let ghost body = out@;
    match label {
        Some(p) => {
            push_sgr(&mut out, '0');
            push_percent(&mut out, p);
        },
        None => {},
    }
    let ghost tail = out@;
    push_sgr(&mut out, '0');
    proof {
        assert(head =~= seq!['\r'] + spinner_prefix(frame) + esc_rgb('3', fill_c));
        assert(body =~= head + match style {
            ProgressStyle::Smooth => repeat_char('\u{2588}', fill as nat) + (if fill < width {
                seq![eighth_block((eighths % 8) as nat)] + esc_rgb('3', empty_c) + repeat_char('\u{2591}', minus(width as int, fill + 1int))
            } else {
                seq![]
            }),
            ProgressStyle::Classic => seq!['['] + repeat_char('#', fill as nat) + esc_rgb('3', empty_c) + repeat_char(
                '-',
                minus(width as int, fill as int),
            ) + seq![']'],
            ProgressStyle::Dot => repeat_char('\u{25cf}', fill as nat) + esc_rgb('3', empty_c) + repeat_char(
                '\u{25cb}',
                minus(width as int, fill as int),
            ),
        });
        assert(tail =~= body + match label {
            Some(p) => esc_reset() + percent_label(p as nat),
            None => seq![],
        });
    }
    chars_to_string(&out)
}

} // verus!
