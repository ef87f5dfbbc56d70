//! Clock text for the timer display: `[hh:]mm:ss[.mmm]`, fitted to a width
//! and colored digit by digit.
use vstd::prelude::*;

use crate::text::{chars_to_string, digits, push_digits, push_repeat, repeat_char, str_chars};

verus! {

/// Timer display mode.
#[derive(Clone, Copy, PartialEq, Eq, Debug, Structural)]
pub enum TimerMode {
    Elapsed,
    Countdown,
}

/// The decimal digits of `n`, with zeros in front up to `w` digits.
pub open spec fn padded(n: nat, w: nat) -> Seq<char> {
    let d = digits(n);
    if d.len() < w {
        repeat_char('0', (w - d.len()) as nat) + d
    } else {
        d
    }
}

/// The clock for `total` whole seconds and `millis` milliseconds: hours
/// (only when there are any), minutes and seconds, two digits each at
/// least, separated by colons; then a dot and three-digit milliseconds when asked.
pub open spec fn clock(total: nat, millis: nat, show_millis: bool) -> Seq<char> {
    let h = total / 3600;
    let m = (total % 3600) / 60;
    let s = total % 60;
    (if h > 0 { padded(h, 2) + seq![':'] } else { seq![] }) + padded(m, 2) + seq![':'] + padded(s, 2) + (if show_millis {
        seq!['.'] + padded(millis, 3)
    } else {
        seq![]
    })
}

fn push_padded(out: &mut Vec<char>, n: u32, w: usize)
    ensures
        final(out)@ == old(out)@ + padded(n as nat, w as nat),
{
    let mut d: Vec<char> = Vec::new();
    push_digits(&mut d, n);
    if d.len() < w {
        push_repeat(out, '0', w - d.len());
    }
    let ghost before = out@;
    let mut i: usize = 0;
    while i < d.len()
        invariant
            0 <= i <= d@.len(),
            out@ == before + d@.take(i as int),
        decreases d@.len() - i,
    {
        out.push(d[i]);
        proof {
            assert(d@.take(i + 1) =~= d@.take(i as int).push(d@[i as int]));
        }
        i = i + 1;
    }
    proof {
        assert(d@ =~= digits(n as nat));
        assert(d@.take(d@.len() as int) =~= d@);
        assert(out@ =~= old(out)@ + padded(n as nat, w as nat));
    }
}

/// The clock text for `total` whole seconds and `millis` milliseconds.
pub fn clock_text(total: u32, millis: u32, show_millis: bool) -> (r: String)
    ensures
        r@ == clock(total as nat, millis as nat, show_millis),
{
    let h = total / 3600;
    let m = (total % 3600) / 60;
    let s = total % 60;
    let mut out: Vec<char> = Vec::new();
    if h > 0 {
        push_padded(&mut out, h, 2);
        out.push(':');
    }
    let ghost a = out@;
    push_padded(&mut out, m, 2);
    out.push(':');
    push_padded(&mut out, s, 2);
    let ghost b = out@;
    if show_millis {
        out.push('.');
        push_padded(&mut out, millis, 3);
    }
    proof {
        assert(a =~= if h > 0 { padded(h as nat, 2) + seq![':'] } else { seq![] });
        assert(b =~= a + padded(m as nat, 2) + seq![':'] + padded(s as nat, 2));
        assert(out@ =~= clock(total as nat, millis as nat, show_millis));
    }
    chars_to_string(&out)
}

/// A clock fitted to `width` columns: cut to its first `width` characters
/// when it is not shorter, else right-aligned.
pub open spec fn fit_clock(t: Seq<char>, width: nat) -> Seq<char> {
    if t.len() >= width {
        t.take(width as int)
    } else {
        repeat_char(' ', (width - t.len()) as nat) + t
    }
}

/// Fits a clock text to `width` columns (see `fit_clock`).
pub fn fit_clock_text(time: &str, width: usize) -> (r: String)
    ensures
        r@ == fit_clock(time@, width as nat),
{
    let cs = str_chars(time);
    let mut out: Vec<char> = Vec::new();
    if cs.len() >= width {
        let mut i: usize = 0;
        while i < width
            invariant
                0 <= i <= width <= cs@.len(),
                out@ == cs@.take(i as int),
            decreases width - i,
        {
            out.push(cs[i]);
            proof {
                assert(cs@.take(i + 1) =~= cs@.take(i as int).push(cs@[i as int]));
            }
            i = i + 1;
        }
    } else {
        push_repeat(&mut out, ' ', width - cs.len());
        let ghost before = out@;
        let mut i: usize = 0;
        while i < cs.len()
            invariant
                0 <= i <= cs@.len(),
                out@ == before + cs@.take(i as int),
            decreases cs@.len() - i,
        {
            out.push(cs[i]);
            proof {
                assert(cs@.take(i + 1) =~= cs@.take(i as int).push(cs@[i as int]));
            }
            i = i + 1;
        }
        proof {
            assert(cs@.take(cs@.len() as int) =~= cs@);
        }
    }
    proof {
        assert(out@ =~= fit_clock(time@, width as nat));
    }
    chars_to_string(&out)
}

} // verus!
