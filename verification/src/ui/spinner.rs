use vstd::prelude::*;

use crate::base::node::SpinnerStyle;

verus! {

/// The animation frames of a spinner style.
pub open spec fn spec_frames(style: SpinnerStyle) -> Seq<char> {
    match style {
        SpinnerStyle::Dots => seq![
            '\u{280B}', '\u{2819}', '\u{2839}', '\u{2838}', '\u{283C}',
            '\u{2834}', '\u{2826}', '\u{2827}', '\u{2807}', '\u{280F}',
        ],
        SpinnerStyle::Line => seq!['\u{2500}', '\\', '\u{2502}', '/'],
        SpinnerStyle::Block => seq!['\u{2596}', '\u{2598}', '\u{259D}', '\u{2597}'],
        SpinnerStyle::Circle => seq!['\u{25D0}', '\u{25D3}', '\u{25D1}', '\u{25D2}'],
    }
}

/// Get the frame characters for a spinner style.
pub fn frames_for(style: SpinnerStyle) -> (r: Vec<char>)
    ensures
        r@ == spec_frames(style),
{
    let r = match style {
        SpinnerStyle::Dots => vec![
            '\u{280B}', '\u{2819}', '\u{2839}', '\u{2838}', '\u{283C}',
            '\u{2834}', '\u{2826}', '\u{2827}', '\u{2807}', '\u{280F}',
        ],
        SpinnerStyle::Line => vec!['\u{2500}', '\\', '\u{2502}', '/'],
        SpinnerStyle::Block => vec!['\u{2596}', '\u{2598}', '\u{259D}', '\u{2597}'],
        SpinnerStyle::Circle => vec!['\u{25D0}', '\u{25D3}', '\u{25D1}', '\u{25D2}'],
    };
    proof {
        assert(r@ =~= spec_frames(style));
    }
    r
}

/// Standalone spinner frame iterator.
///
/// Cycles through animation frames for a given spinner style.
/// Works without the full TUI framework.
pub struct SpinnerFrames {
    frames: Vec<char>,
    index: usize,
}

impl SpinnerFrames {
    /// The frames cycled through.
    pub closed spec fn spec_frames(&self) -> Seq<char> {
        self.frames@
    }

    /// Position of the current frame.
    pub closed spec fn spec_index(&self) -> nat {
        self.index as nat
    }

    /// The position is always that of a frame.
    pub closed spec fn wf(&self) -> bool {
        self.index < self.frames@.len()
    }

    /// Create a new spinner with the given style, on its first frame.
    pub fn new(style: SpinnerStyle) -> (s: Self)
        ensures
            s.wf(),
            s.spec_frames() == spec_frames(style),
            s.spec_index() == 0,
    {
        SpinnerFrames { frames: frames_for(style), index: 0 }
    }

    /// Return the current frame character and advance to the next, wrapping
    /// around after the last.
    pub fn tick(&mut self) -> (c: char)
        requires
            old(self).wf(),
        ensures
            final(self).wf(),
            c == old(self).spec_frames()[old(self).spec_index() as int],
            final(self).spec_frames() == old(self).spec_frames(),
            final(self).spec_index() == (old(self).spec_index() + 1) % old(self).spec_frames().len(),
    {
        let i = self.index;
        let ch = self.frames[i];
        let n = self.frames.len();
        self.index = (i + 1) % n;
        ch
    }

    /// Return the current frame character without advancing.
    pub fn current(&self) -> (c: char)
        requires
            self.wf(),
        ensures
            c == self.spec_frames()[self.spec_index() as int],
    {
        self.frames[self.index]
    }
}

/// Ticking a spinner as many times as it has frames brings it back to the
/// frame it started on.
pub proof fn law_spinner_cycles(len: nat, start: nat)
    requires
        start < len,
    ensures
        cycle_index(start, len, len) == start,
{
    lemma_cycle_index(start, len, len);
    assert((start + len) % len == start) by (nonlinear_arith)
        requires
            start < len,
    ;
}

/// The position after `k` ticks from `start` with `len` frames.
pub open spec fn cycle_index(start: nat, len: nat, k: nat) -> nat
    decreases k,
{
    if k == 0 {
        start
    } else {
        ((cycle_index(start, len, (k - 1) as nat) + 1) % len) as nat
    }
}

proof fn lemma_cycle_index(start: nat, len: nat, k: nat)
    requires
        start < len,
    ensures
        cycle_index(start, len, k) == (start + k) % len,
    decreases k,
{
    if k > 0 {
        lemma_cycle_index(start, len, (k - 1) as nat);
        let p: int = cycle_index(start, len, (k - 1) as nat) as int;
        let l: int = len as int;
        let q: int = (start + k - 1) as int;
        assert(p == q % l);
        vstd::arithmetic::div_mod::lemma_add_mod_noop(q, 1, l);
        vstd::arithmetic::div_mod::lemma_mod_twice(q, l);
        vstd::arithmetic::div_mod::lemma_add_mod_noop(p, 1, l);
        assert((p + 1) % l == (q + 1) % l);
        assert(cycle_index(start, len, k) == ((p + 1) % l) as nat);
    } else {
        vstd::arithmetic::div_mod::lemma_small_mod(start, len);
    }
}

} // verus!
