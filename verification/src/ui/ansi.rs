//! Styled one-off output: the text the standalone components print, ANSI
//! color and attribute switches included.
use vstd::prelude::*;

use crate::text::{chars_to_string, digits, push_digits, push_repeat, repeat_char, str_chars};

verus! {

/// `ESC [ lead 8 ; 2 ; r ; g ; b m`: a 24-bit color switch, with `lead`
/// '3' for the foreground and '4' for the background.
pub open spec fn esc_rgb(lead: char, c: (u8, u8, u8)) -> Seq<char> {
    seq!['\u{1b}', '[', lead, '8', ';', '2', ';'] + digits(c.0 as nat) + seq![';'] + digits(c.1 as nat) + seq![';']
        + digits(c.2 as nat) + seq!['m']
}

/// `ESC [ code m`: a graphic rendition switch.
pub open spec fn esc_sgr(code: Seq<char>) -> Seq<char> {
    seq!['\u{1b}', '['] + code + seq!['m']
}

/// Back to the terminal's default colors and attributes.
pub open spec fn esc_reset() -> Seq<char> {
    esc_sgr(seq!['0'])
}

/// Appends a 24-bit color switch.
pub fn push_rgb(out: &mut Vec<char>, lead: char, c: (u8, u8, u8))
    ensures
        final(out)@ == old(out)@ + esc_rgb(lead, c),
{
    let ghost o = out@;
    out.push('\u{1b}');
    out.push('[');
    out.push(lead);
    out.push('8');
    out.push(';');
    out.push('2');
    out.push(';');
    push_digits(out, c.0 as u32);
    out.push(';');
    push_digits(out, c.1 as u32);
    out.push(';');
    push_digits(out, c.2 as u32);
    out.push('m');
    proof {
        assert(out@ =~= o + esc_rgb(lead, c));
    }
}

/// Appends a graphic rendition switch with a one-character code.
pub fn push_sgr(out: &mut Vec<char>, code: char)
    ensures
        final(out)@ == old(out)@ + esc_sgr(seq![code]),
{
    let ghost o = out@;
    out.push('\u{1b}');
    out.push('[');
    out.push(code);
    out.push('m');
    proof {
        assert(out@ =~= o + esc_sgr(seq![code]));
    }
}

/// Appends all of `cs`.
pub fn push_all(out: &mut Vec<char>, cs: &[char])
    ensures
        final(out)@ == old(out)@ + cs@,
{
    let ghost o = out@;
    let mut i: usize = 0;
    while i < cs.len()
        invariant
            0 <= i <= cs@.len(),
            out@ == o + cs@.take(i as int),
        decreases cs@.len() - i,
    {
        out.push(cs[i]);
        proof {
            assert(cs@.take(i + 1) =~= cs@.take(i as int).push(cs@[i as int]));
        }
        i = i + 1;
    }
    proof {
        assert(cs@.take(cs@.len() as int) =~= cs@);
    }
}

// Timer.

/// Each character of a clock colored: colons and dots in `dim`, the rest in `fg`.
pub open spec fn colored_clock(t: Seq<char>, fg: (u8, u8, u8), dim: (u8, u8, u8)) -> Seq<char>
    decreases t.len(),
{
    if t.len() == 0 {
        seq![]
    } else {
        let ch = t.last();
        colored_clock(t.drop_last(), fg, dim) + esc_rgb('3', if ch == ':' || ch == '.' { dim } else { fg }) + seq![ch]
    }
}

/// What the timer prints: its clock text colored, then a reset.
pub fn timer_styled(rendered: &str, fg: (u8, u8, u8), dim: (u8, u8, u8)) -> (r: String)
    ensures
        r@ == colored_clock(rendered@, fg, dim) + esc_reset(),
{
    let cs = str_chars(rendered);
    let mut out: Vec<char> = Vec::new();
    let mut i: usize = 0;
    while i < cs.len()
        invariant
            0 <= i <= cs@.len(),
            cs@ == rendered@,
            out@ == colored_clock(cs@.take(i as int), fg, dim),
        decreases cs@.len() - i,
    {
        let ch = cs[i];
        if ch == ':' || ch == '.' {
            push_rgb(&mut out, '3', dim);
        } else {
            push_rgb(&mut out, '3', fg);
        }
        out.push(ch);
        proof {
            assert(cs@.take(i + 1).drop_last() =~= cs@.take(i as int));
            assert(cs@.take(i + 1).last() == ch);
            assert(out@ =~= colored_clock(cs@.take(i + 1), fg, dim));
        }
        i = i + 1;
    }
    push_sgr(&mut out, '0');
    proof {
        assert(cs@.take(cs@.len() as int) =~= cs@);
    }
    chars_to_string(&out)
}

} // verus!
