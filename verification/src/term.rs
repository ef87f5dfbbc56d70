//! Double-buffered terminal framebuffer with differential rendering.
//!
//! The framebuffer computes the bytes to send to the terminal; writing them
//! out is left to the caller.
use vstd::prelude::*;
use vstd::utf8::encode_scalar;

use crate::text::{decimal, lemma_utf8_width_pos, push_char_utf8, push_decimal, str_chars};

verus! {

pub const ATTR_BOLD: u8 = 1u8;
pub const ATTR_DIM: u8 = 2u8;
pub const ATTR_ITALIC: u8 = 4u8;
pub const ATTR_UNDERLINE: u8 = 8u8;
pub const ATTR_STRIKETHROUGH: u8 = 16u8;

/// One character cell of the screen with its colors and attribute bits.
#[derive(Clone, Copy, Debug)]
pub struct Cell {
    pub ch: char,
    pub fg: (u8, u8, u8),
    pub bg: (u8, u8, u8),
    pub attrs: u8,
}

/// A space, white on black, with no attributes.
pub open spec fn blank_cell() -> Cell {
    Cell { ch: ' ', fg: (255, 255, 255), bg: (0, 0, 0), attrs: 0 }
}

impl Cell {
    pub fn blank() -> (c: Self)
        ensures
            c == blank_cell(),
    {
        Cell { ch: ' ', fg: (255, 255, 255), bg: (0, 0, 0), attrs: 0 }
    }
}

fn cell_eq(a: Cell, b: Cell) -> (r: bool)
    ensures
        r == (a == b),
{
    a.ch == b.ch && a.fg.0 == b.fg.0 && a.fg.1 == b.fg.1 && a.fg.2 == b.fg.2 && a.bg.0 == b.bg.0
        && a.bg.1 == b.bg.1 && a.bg.2 == b.bg.2 && a.attrs == b.attrs
}

fn rgb_eq(a: (u8, u8, u8), b: (u8, u8, u8)) -> (r: bool)
    ensures
        r == (a == b),
{
    a.0 == b.0 && a.1 == b.1 && a.2 == b.2
}

/// Mathematical view of the terminal framebuffer.
pub struct TermView {
    /// Control bytes queued for the next flush.
    pub raw: Seq<u8>,
    /// What the terminal shows (as of the last flush).
    pub front: Seq<Cell>,
    /// The frame being drawn.
    pub back: Seq<Cell>,
    pub cols: u16,
    pub rows: u16,
    /// Drawing cursor.
    pub cx: u16,
    pub cy: u16,
    /// Current drawing colors and attributes.
    pub fg: (u8, u8, u8),
    pub bg: (u8, u8, u8),
    pub attrs: u8,
    /// Whether the next flush redraws every cell.
    pub first_frame: bool,
    /// Drawing is restricted to this rectangle (x, y, width, height) when set.
    pub clip: Option<(u16, u16, u16, u16)>,
}

/// `n` blank cells.
pub open spec fn blanks(n: nat) -> Seq<Cell> {
    Seq::new(n, |i: int| blank_cell())
}

/// Whether cell (x, y) lies inside the clip rectangle (or there is none).
pub open spec fn in_clip(v: TermView, x: int, y: int) -> bool {
    match v.clip {
        Some((cx, cy, w, h)) => cx <= x < cx + w && cy <= y < cy + h,
        None => true,
    }
}

/// Index of cell (x, y) in the row-major buffers.
pub open spec fn cell_index(v: TermView, x: int, y: int) -> int {
    y * v.cols + x
}

/// The framebuffer after drawing `ch` at the cursor: the cell is written
/// (with the current colors and attributes) when it is on screen and inside
/// the clip; the cursor moves one column right when it is on screen.
pub open spec fn spec_put(v: TermView, ch: char) -> TermView {
    if v.cx < v.cols && v.cy < v.rows {
        TermView {
            back: if in_clip(v, v.cx as int, v.cy as int) {
                v.back.update(
                    cell_index(v, v.cx as int, v.cy as int),
                    Cell { ch, fg: v.fg, bg: v.bg, attrs: v.attrs },
                )
            } else {
                v.back
            },
            cx: (v.cx + 1) as u16,
            ..v
        }
    } else {
        v
    }
}

/// The framebuffer after drawing each character of `cs` in turn.
pub open spec fn spec_print(v: TermView, cs: Seq<char>) -> TermView
    decreases cs.len(),
{
    if cs.len() == 0 {
        v
    } else {
        spec_put(spec_print(v, cs.drop_last()), cs.last())
    }
}

// Escape sequences.

pub open spec fn esc_csi() -> Seq<u8> {
    seq![0x1bu8, 0x5bu8]
}

/// `ESC [ 0 m`: reset all attributes.
pub open spec fn sgr_reset() -> Seq<u8> {
    esc_csi() + seq![0x30u8, 0x6du8]
}

/// `ESC [ n m` for a one-digit attribute number.
pub open spec fn sgr1(d: u8) -> Seq<u8> {
    esc_csi() + seq![d, 0x6du8]
}

/// `ESC [ row ; col H` with 1-based coordinates.
pub open spec fn move_seq(row: nat, col: nat) -> Seq<u8> {
    esc_csi() + decimal(row) + seq![0x3bu8] + decimal(col) + seq![0x48u8]
}

/// `ESC [ lead ; 2 ; r ; g ; b m`, with `lead` "38" (foreground) or "48" (background).
pub open spec fn color_seq(lead: u8, c: (u8, u8, u8)) -> Seq<u8> {
    esc_csi() + seq![lead, 0x38u8, 0x3bu8, 0x32u8, 0x3bu8] + decimal(c.0 as nat) + seq![0x3bu8]
        + decimal(c.1 as nat) + seq![0x3bu8] + decimal(c.2 as nat) + seq![0x6du8]
}

/// Reset followed by the attribute switches of `a`: bold 1, dim 2, italic 3,
/// underline 4, strikethrough 9.
pub open spec fn attr_seq(a: u8) -> Seq<u8> {
    sgr_reset() + (if a & ATTR_BOLD != 0 {
        sgr1(0x31)
    } else {
        Seq::empty()
    }) + (if a & ATTR_DIM != 0 {
        sgr1(0x32)
    } else {
        Seq::empty()
    }) + (if a & ATTR_ITALIC != 0 {
        sgr1(0x33)
    } else {
        Seq::empty()
    }) + (if a & ATTR_UNDERLINE != 0 {
        sgr1(0x34)
    } else {
        Seq::empty()
    }) + (if a & ATTR_STRIKETHROUGH != 0 {
        sgr1(0x39)
    } else {
        Seq::empty()
    })
}

/// `ESC [ 2 J`: clear the screen.
pub open spec fn clear_screen_seq() -> Seq<u8> {
    esc_csi() + seq![0x32u8, 0x4au8]
}

/// `ESC [ ? 2 5 l` / `h`: hide / show the cursor.
pub open spec fn cursor_seq(show: bool) -> Seq<u8> {
    esc_csi() + seq![0x3fu8, 0x32u8, 0x35u8, if show { 0x68u8 } else { 0x6cu8 }]
}

/// `ESC [ ? 1 0 4 9 h` / `l`: enter / leave the alternate screen.
pub open spec fn alt_screen_seq(enter: bool) -> Seq<u8> {
    esc_csi() + seq![0x3fu8, 0x31u8, 0x30u8, 0x34u8, 0x39u8, if enter { 0x68u8 } else { 0x6cu8 }]
}

/// State of the differential emitter between cells.
pub struct DiffState {
    pub out: Seq<u8>,
    pub fg: (u8, u8, u8),
    pub bg: (u8, u8, u8),
    pub attrs: u8,
    pub crow: int,
    pub ccol: int,
}

pub open spec fn diff_start() -> DiffState {
    DiffState { out: Seq::empty(), fg: (0, 0, 0), bg: (0, 0, 0), attrs: 0xff, crow: -1, ccol: -1 }
}

/// One cell of the differential emitter: an unchanged cell (unless every
/// cell is forced) emits nothing; otherwise move the terminal cursor unless
/// it is already there, switch attributes (which also forgets the colors),
/// then colors, when they differ from the last ones sent, then the character.
pub open spec fn diff_cell(st: DiffState, b: Cell, f: Cell, force: bool, row: int, col: int) -> DiffState {
    if !force && b == f {
        st
    } else {
        let o1 = if st.crow != row || st.ccol != col {
            st.out + move_seq((row + 1) as nat, (col + 1) as nat)
        } else {
            st.out
        };
        let attr_change = b.attrs != st.attrs;
        let o2 = if attr_change {
            o1 + attr_seq(b.attrs)
        } else {
            o1
        };
        let lfg = if attr_change {
            (0u8, 0u8, 0u8)
        } else {
            st.fg
        };
        let lbg = if attr_change {
            (0u8, 0u8, 0u8)
        } else {
            st.bg
        };
        let o3 = if b.fg != lfg {
            o2 + color_seq(0x33, b.fg)
        } else {
            o2
        };
        let o4 = if b.bg != lbg {
            o3 + color_seq(0x34, b.bg)
        } else {
            o3
        };
        DiffState {
            out: o4 + encode_scalar(b.ch as u32),
            fg: b.fg,
            bg: b.bg,
            attrs: b.attrs,
            crow: row,
            ccol: col + 1,
        }
    }
}

/// The emitter after the first `c` cells of row `row`, starting from `st`.
pub open spec fn diff_row(v: TermView, st: DiffState, row: int, c: int) -> DiffState
    decreases c,
{
    if c <= 0 {
        st
    } else {
        let s = diff_row(v, st, row, c - 1);
        diff_cell(
            s,
            v.back[cell_index(v, c - 1, row)],
            v.front[cell_index(v, c - 1, row)],
            v.first_frame,
            row,
            c - 1,
        )
    }
}

/// The emitter after the first `r` rows.
pub open spec fn diff_rows(v: TermView, r: int) -> DiffState
    decreases r,
{
    if r <= 0 {
        diff_start()
    } else {
        diff_row(v, diff_rows(v, r - 1), r - 1, v.cols as int)
    }
}

/// The bytes that bring the terminal from `front` to `back`: the emitter's
/// output over every cell, followed by a reset when anything was emitted.
pub open spec fn diff_bytes(v: TermView) -> Seq<u8> {
    let w = TermView { raw: Seq::empty(), ..v };
    let out = diff_rows(w, w.rows as int).out;
    if out.len() == 0 {
        out
    } else {
        out + sgr_reset()
    }
}

/// Everything a flush sends: the queued control bytes, a screen clear on the
/// first frame, then the differential update.
pub open spec fn flush_bytes(v: TermView) -> Seq<u8> {
    v.raw + (if v.first_frame {
        clear_screen_seq()
    } else {
        Seq::empty()
    }) + diff_bytes(v)
}

/// The framebuffer after a flush: nothing queued, the terminal shows the
/// drawn frame, later flushes only send differences.
pub open spec fn spec_flushed(v: TermView) -> TermView {
    TermView { raw: Seq::empty(), front: v.back, first_frame: false, ..v }
}

/// Size the framebuffer takes from what the platform reported: the reported
/// size when both sides are positive, else 80 by 24.
pub open spec fn spec_initial_size(reported: Option<(u16, u16)>) -> (u16, u16) {
    match reported {
        Some((c, r)) => if c > 0 && r > 0 {
            (c, r)
        } else {
            (80, 24)
        },
        None => (80, 24),
    }
}

/// The framebuffer at the start of a frame: resized (and fully redrawn next
/// time) when the platform reported a new size, the frame cleared to blanks,
/// cursor home, default colors, no attributes, no clip.
pub open spec fn spec_clear(v: TermView, new_size: Option<(u16, u16)>) -> TermView {
    let resized = match new_size {
        Some((c, r)) => c != v.cols || r != v.rows,
        None => false,
    };
    let cols = if resized {
        new_size.unwrap().0
    } else {
        v.cols
    };
    let rows = if resized {
        new_size.unwrap().1
    } else {
        v.rows
    };
    TermView {
        raw: v.raw,
        front: if resized {
            blanks((cols * rows) as nat)
        } else {
            v.front
        },
        back: blanks((cols * rows) as nat),
        cols,
        rows,
        cx: 0,
        cy: 0,
        fg: (255, 255, 255),
        bg: (0, 0, 0),
        attrs: 0,
        first_frame: if resized {
            true
        } else {
            v.first_frame
        },
        clip: None,
    }
}

/// Double-buffered terminal with differential rendering.
pub struct Term {
    raw_buf: Vec<u8>,
    front: Vec<Cell>,
    back: Vec<Cell>,
    cols: u16,
    rows: u16,
    cx: u16,
    cy: u16,
    cur_fg: (u8, u8, u8),
    cur_bg: (u8, u8, u8),
    cur_attrs: u8,
    first_frame: bool,
    clip: Option<(u16, u16, u16, u16)>,
}

impl View for Term {
    type V = TermView;

    closed spec fn view(&self) -> TermView {
        TermView {
            raw: self.raw_buf@,
            front: self.front@,
            back: self.back@,
            cols: self.cols,
            rows: self.rows,
            cx: self.cx,
            cy: self.cy,
            fg: self.cur_fg,
            bg: self.cur_bg,
            attrs: self.cur_attrs,
            first_frame: self.first_frame,
            clip: self.clip,
        }
    }
}

/// Validity of a framebuffer view: both buffers hold one cell per screen position.
pub open spec fn term_inv(v: TermView) -> bool {
    &&& v.front.len() == v.cols * v.rows
    &&& v.back.len() == v.cols * v.rows
}

/// The clip rectangle's far edges fit in 16 bits (or there is none).
pub open spec fn clip_fits(v: TermView) -> bool {
    match v.clip {
        Some((x, y, w, h)) => x + w <= u16::MAX && y + h <= u16::MAX,
        None => true,
    }
}

/// A valid framebuffer whose clip fits in 16 bits: any text can be drawn.
pub open spec fn term_wf(v: TermView) -> bool {
    term_inv(v) && clip_fits(v)
}

/// Whether drawing a character at the cursor stays within 16-bit arithmetic:
/// on screen and at or right of the clip's left edge, the clip's right edge
/// must fit; inside its columns and at or below its top, its bottom edge too.
pub open spec fn put_ok(v: TermView) -> bool {
    v.cx < v.cols && v.cy < v.rows ==> match v.clip {
        Some((x, y, w, h)) => v.cx >= x ==> (x + w <= u16::MAX && (v.cx < x + w && v.cy >= y ==> y + h
            <= u16::MAX)),
        None => true,
    }
}

/// Whether drawing each character of `cs` in turn stays within 16-bit arithmetic.
pub open spec fn puts_ok(v: TermView, cs: Seq<char>) -> bool
    decreases cs.len(),
{
    cs.len() == 0 || (put_ok(v) && puts_ok(spec_put(v, cs[0]), cs.skip(1)))
}

proof fn lemma_index_in_bounds(x: int, y: int, cols: int, rows: int)
    requires
        0 <= x < cols,
        0 <= y < rows,
    ensures
        0 <= y * cols + x < cols * rows,
        y * cols + x + 1 <= cols * rows,
{
    assert(y * cols + x < cols * rows) by (nonlinear_arith)
        requires
            0 <= x < cols,
            0 <= y < rows,
    ;
    assert(0 <= y * cols) by (nonlinear_arith)
        requires
            0 <= y,
            0 <= cols,
    ;
}

proof fn lemma_size_fits(cols: u16, rows: u16)
    ensures
        cols * rows <= u32::MAX,
{
    assert(cols * rows <= 65535 * 65535) by (nonlinear_arith)
        requires
            cols <= 65535,
            rows <= 65535,
    ;
}

fn blank_cells(n: usize) -> (r: Vec<Cell>)
    ensures
        r@ == blanks(n as nat),
{
    let mut r: Vec<Cell> = Vec::new();
    let mut i: usize = 0;
    while i < n
        invariant
            0 <= i <= n,
            r@ == blanks(i as nat),
        decreases n - i,
    {
        r.push(Cell::blank());
        proof {
            assert(r@ =~= blanks((i + 1) as nat));
        }
        i = i + 1;
    }
    r
}

impl Term {
    /// Both buffers hold one cell per screen position.
    pub open spec fn inv(&self) -> bool {
        term_inv(self@)
    }

    /// Valid, with a clip that fits in 16 bits.
    pub open spec fn wf(&self) -> bool {
        term_wf(self@)
    }

    /// A framebuffer for a terminal of the reported size (80 by 24 when the
    /// size is unknown or zero), all blank, to be fully drawn on first flush.
    pub fn new(reported: Option<(u16, u16)>) -> (t: Self)
        ensures
            t.wf(),
            t@ == (TermView {
                raw: Seq::empty(),
                front: blanks((spec_initial_size(reported).0 * spec_initial_size(reported).1) as nat),
                back: blanks((spec_initial_size(reported).0 * spec_initial_size(reported).1) as nat),
                cols: spec_initial_size(reported).0,
                rows: spec_initial_size(reported).1,
                cx: 0,
                cy: 0,
                fg: (255, 255, 255),
                bg: (0, 0, 0),
                attrs: 0,
                first_frame: true,
                clip: None,
            }),
    {
        let (cols, rows) = match reported {
            Some((c, r)) => if c > 0 && r > 0 {
                (c, r)
            } else {
                (80u16, 24u16)
            },
            None => (80u16, 24u16),
        };
        proof {
            lemma_size_fits(cols, rows);
        }
        let n = (cols as usize) * (rows as usize);
        Term {
            raw_buf: Vec::with_capacity(512),
            front: blank_cells(n),
            back: blank_cells(n),
            cols,
            rows,
            cx: 0,
            cy: 0,
            cur_fg: (255, 255, 255),
            cur_bg: (0, 0, 0),
            cur_attrs: 0,
            first_frame: true,
            clip: None,
        }
    }

    pub fn cols(&self) -> (r: u16)
        ensures
            r == self@.cols,
    {
        self.cols
    }

    pub fn rows(&self) -> (r: u16)
        ensures
            r == self@.rows,
    {
        self.rows
    }

    /// Starts a frame; `new_size` is the terminal size when the platform
    /// signalled a resize since the last frame.
    pub fn clear(&mut self, new_size: Option<(u16, u16)>) -> (r: &mut Self)
        requires
            old(self).inv(),
        ensures
            r.wf(),
            r@ == spec_clear(old(self)@, new_size),
            *final(self) == *final(r),
    {
        match new_size {
            Some((cols, rows)) => {
                if cols != self.cols || rows != self.rows {
                    self.cols = cols;
                    self.rows = rows;
                    proof {
                        lemma_size_fits(cols, rows);
                    }
                    let n = (cols as usize) * (rows as usize);
                    self.front = blank_cells(n);
                    self.back = blank_cells(n);
                    self.first_frame = true;
                }
            },
            None => {},
        }
        let n = self.back.len();
        let mut i: usize = 0;
        let ghost pre = self@;
        while i < n
            invariant
                n == self.back@.len(),
                0 <= i <= n,
                forall|k: int| 0 <= k < i ==> self.back@[k] == blank_cell(),
                self@ == (TermView { back: self@.back, ..pre }),
            decreases n - i,
        {
            self.back.set(i, Cell::blank());
            i = i + 1;
        }
        proof {
            assert(self.back@ =~= blanks(n as nat));
        }
        self.cx = 0;
        self.cy = 0;
        self.cur_fg = (255, 255, 255);
        self.cur_bg = (0, 0, 0);
        self.cur_attrs = 0;
        self.clip = None;
        proof {
            assert(self@.back =~= spec_clear(old(self)@, new_size).back);
        }
        self
    }

    /// Restricts drawing to the rectangle at (x, y) of size w by h. A
    /// rectangle whose far edges pass 16 bits is accepted; drawing is then
    /// only possible where no edge needs computing (see `put_ok`).
    pub fn set_clip(&mut self, x: u16, y: u16, w: u16, h: u16) -> (r: &mut Self)
        requires
            old(self).inv(),
        ensures
            r.inv(),
            r.wf() <==> x + w <= u16::MAX && y + h <= u16::MAX,
            r@ == (TermView { clip: Some((x, y, w, h)), ..old(self)@ }),
            *final(self) == *final(r),
    {
        self.clip = Some((x, y, w, h));
        self
    }

    /// Lifts the clip rectangle.
    pub fn clear_clip(&mut self) -> (r: &mut Self)
        requires
            old(self).inv(),
        ensures
            r.wf(),
            r@ == (TermView { clip: None, ..old(self)@ }),
            *final(self) == *final(r),
    {
        self.clip = None;
        self
    }

    pub fn move_to(&mut self, col: u16, row: u16) -> (r: &mut Self)
        requires
            old(self).inv(),
        ensures
            r.inv(),
            r.wf() == old(self).wf(),
            r@ == (TermView { cx: col, cy: row, ..old(self)@ }),
            *final(self) == *final(r),
    {
        self.cx = col;
        self.cy = row;
        self
    }

    fn put_cell(&mut self, ch: char)
        requires
            old(self).inv(),
            put_ok(old(self)@),
        ensures
            final(self).inv(),
            final(self).wf() == old(self).wf(),
            final(self)@ == spec_put(old(self)@, ch),
    {
        if self.cx < self.cols && self.cy < self.rows {
            match self.clip {
                Some((clip_x, clip_y, clip_w, clip_h)) => {
                    if self.cx < clip_x || self.cx >= clip_x + clip_w || self.cy < clip_y || self.cy
                        >= clip_y + clip_h {
                        self.cx = self.cx + 1;
                        return ;
                    }
                },
                None => {},
            }
            proof {
                lemma_index_in_bounds(self.cx as int, self.cy as int, self.cols as int, self.rows as int);
                lemma_size_fits(self.cols, self.rows);
                assert(self.cy * self.cols <= self.cy * self.cols + self.cx);
            }
            let idx = (self.cy as usize) * (self.cols as usize) + (self.cx as usize);
            self.back.set(
                idx,
                Cell { ch, fg: self.cur_fg, bg: self.cur_bg, attrs: self.cur_attrs },
            );
            self.cx = self.cx + 1;
        }
    }

    pub(crate) fn put_chars(&mut self, cs: &[char])
        requires
            old(self).inv(),
            old(self).wf() || puts_ok(old(self)@, cs@),
        ensures
            final(self).inv(),
            final(self).wf() == old(self).wf(),
            final(self)@ == spec_print(old(self)@, cs@),
    {
        let n = cs.len();
        let mut i: usize = 0;
        proof {
            assert(cs@.skip(0) =~= cs@);
        }
        while i < n
            invariant
                n == cs@.len(),
                0 <= i <= n,
                self.inv(),
                self.wf() == old(self).wf(),
                self.wf() || puts_ok(self@, cs@.skip(i as int)),
                self@ == spec_print(old(self)@, cs@.take(i as int)),
            decreases n - i,
        {
            proof {
                assert(cs@.take(i + 1).drop_last() =~= cs@.take(i as int));
                assert(cs@.skip(i as int)[0] == cs@[i as int]);
                assert(cs@.skip(i as int).skip(1) =~= cs@.skip(i + 1));
            }
            self.put_cell(cs[i]);
            i = i + 1;
        }
        proof {
            assert(cs@.take(n as int) =~= cs@);
        }
    }

    pub fn print(&mut self, s: &str) -> (r: &mut Self)
        requires
            old(self).inv(),
            old(self).wf() || puts_ok(old(self)@, s@),
        ensures
            r.inv(),
            r.wf() == old(self).wf(),
            r@ == spec_print(old(self)@, s@),
            *final(self) == *final(r),
    {
        let cs = str_chars(s);
        self.put_chars(cs.as_slice());
        self
    }

    pub fn print_char(&mut self, c: char) -> (r: &mut Self)
        requires
            old(self).inv(),
            old(self).wf() || put_ok(old(self)@),
        ensures
            r.inv(),
            r.wf() == old(self).wf(),
            r@ == spec_put(old(self)@, c),
            *final(self) == *final(r),
    {
        self.put_cell(c);
        self
    }

    pub fn print_n(&mut self, c: char, n: usize) -> (r: &mut Self)
        requires
            old(self).inv(),
            old(self).wf() || puts_ok(old(self)@, Seq::new(n as nat, |i: int| c)),
        ensures
            r.inv(),
            r.wf() == old(self).wf(),
            r@ == spec_print(old(self)@, Seq::new(n as nat, |i: int| c)),
            *final(self) == *final(r),
    {
        let mut i: usize = 0;
        proof {
            assert(Seq::new(n as nat, |k: int| c).skip(0) =~= Seq::new(n as nat, |k: int| c));
        }
        while i < n
            invariant
                0 <= i <= n,
                self.inv(),
                self.wf() == old(self).wf(),
                self.wf() || puts_ok(self@, Seq::new(n as nat, |k: int| c).skip(i as int)),
                self@ == spec_print(old(self)@, Seq::new(i as nat, |k: int| c)),
            decreases n - i,
        {
            proof {
                let all = Seq::new(n as nat, |k: int| c);
                assert(Seq::new((i + 1) as nat, |k: int| c).drop_last() =~= Seq::new(i as nat, |k: int| c));
                assert(all.skip(i as int)[0] == c);
                assert(all.skip(i as int).skip(1) =~= all.skip(i + 1));
            }
            self.put_cell(c);
            i = i + 1;
        }
        self
    }

    pub fn fg_rgb(&mut self, r: u8, g: u8, b: u8) -> (t: &mut Self)
        requires
            old(self).inv(),
        ensures
            t.inv(),
            t.wf() == old(self).wf(),
            t@ == (TermView { fg: (r, g, b), ..old(self)@ }),
            *final(self) == *final(t),
    {
        self.cur_fg = (r, g, b);
        self
    }

    pub fn bg_rgb(&mut self, r: u8, g: u8, b: u8) -> (t: &mut Self)
        requires
            old(self).inv(),
        ensures
            t.inv(),
            t.wf() == old(self).wf(),
            t@ == (TermView { bg: (r, g, b), ..old(self)@ }),
            *final(self) == *final(t),
    {
        self.cur_bg = (r, g, b);
        self
    }

    pub fn bold(&mut self) -> (r: &mut Self)
        requires
            old(self).inv(),
        ensures
            r.inv(),
            r.wf() == old(self).wf(),
            r@ == (TermView { attrs: old(self)@.attrs | ATTR_BOLD, ..old(self)@ }),
            *final(self) == *final(r),
    {
        self.cur_attrs = self.cur_attrs | ATTR_BOLD;
        self
    }

    pub fn dim(&mut self) -> (r: &mut Self)
        requires
            old(self).inv(),
        ensures
            r.inv(),
            r.wf() == old(self).wf(),
            r@ == (TermView { attrs: old(self)@.attrs | ATTR_DIM, ..old(self)@ }),
            *final(self) == *final(r),
    {
        self.cur_attrs = self.cur_attrs | ATTR_DIM;
        self
    }

    pub fn italic(&mut self) -> (r: &mut Self)
        requires
            old(self).inv(),
        ensures
            r.inv(),
            r.wf() == old(self).wf(),
            r@ == (TermView { attrs: old(self)@.attrs | ATTR_ITALIC, ..old(self)@ }),
            *final(self) == *final(r),
    {
        self.cur_attrs = self.cur_attrs | ATTR_ITALIC;
        self
    }

    pub fn underline(&mut self) -> (r: &mut Self)
        requires
            old(self).inv(),
        ensures
            r.inv(),
            r.wf() == old(self).wf(),
            r@ == (TermView { attrs: old(self)@.attrs | ATTR_UNDERLINE, ..old(self)@ }),
            *final(self) == *final(r),
    {
        self.cur_attrs = self.cur_attrs | ATTR_UNDERLINE;
        self
    }

    pub fn strikethrough(&mut self) -> (r: &mut Self)
        requires
            old(self).inv(),
        ensures
            r.inv(),
            r.wf() == old(self).wf(),
            r@ == (TermView { attrs: old(self)@.attrs | ATTR_STRIKETHROUGH, ..old(self)@ }),
            *final(self) == *final(r),
    {
        self.cur_attrs = self.cur_attrs | ATTR_STRIKETHROUGH;
        self
    }

    /// Back to white on black with no attributes.
    pub fn reset(&mut self) -> (r: &mut Self)
        requires
            old(self).inv(),
        ensures
            r.inv(),
            r.wf() == old(self).wf(),
            r@ == (TermView { fg: (255, 255, 255), bg: (0, 0, 0), attrs: 0, ..old(self)@ }),
            *final(self) == *final(r),
    {
        self.cur_fg = (255, 255, 255);
        self.cur_bg = (0, 0, 0);
        self.cur_attrs = 0;
        self
    }

    fn queue_private_mode(&mut self, code: &[u8], on: bool)
        requires
            old(self).inv(),
        ensures
            final(self).inv(),
            final(self).wf() == old(self).wf(),
            final(self)@ == (TermView {
                raw: old(self)@.raw + esc_csi() + seq![0x3fu8] + code@ + seq![if on { 0x68u8 } else { 0x6cu8 }],
                ..old(self)@
            }),
    {
        self.raw_buf.push(0x1b);
        self.raw_buf.push(0x5b);
        self.raw_buf.push(0x3f);
        crate::text::push_bytes(&mut self.raw_buf, code);
        self.raw_buf.push(if on { 0x68 } else { 0x6c });
        proof {
            assert(self@.raw =~= old(self)@.raw + esc_csi() + seq![0x3fu8] + code@ + seq![if on { 0x68u8 } else { 0x6cu8 }]);
        }
    }

    pub fn hide_cursor(&mut self) -> (r: &mut Self)
        requires
            old(self).inv(),
        ensures
            r.inv(),
            r.wf() == old(self).wf(),
            r@ == (TermView { raw: old(self)@.raw + cursor_seq(false), ..old(self)@ }),
            *final(self) == *final(r),
    {
        self.queue_private_mode(&[0x32, 0x35], false);
        proof {
            assert(self@.raw =~= old(self)@.raw + cursor_seq(false));
        }
        self
    }

    pub fn show_cursor(&mut self) -> (r: &mut Self)
        requires
            old(self).inv(),
        ensures
            r.inv(),
            r.wf() == old(self).wf(),
            r@ == (TermView { raw: old(self)@.raw + cursor_seq(true), ..old(self)@ }),
            *final(self) == *final(r),
    {
        self.queue_private_mode(&[0x32, 0x35], true);
        proof {
            assert(self@.raw =~= old(self)@.raw + cursor_seq(true));
        }
        self
    }

    pub fn enter_alt_screen(&mut self) -> (r: &mut Self)
        requires
            old(self).inv(),
        ensures
            r.inv(),
            r.wf() == old(self).wf(),
            r@ == (TermView { raw: old(self)@.raw + alt_screen_seq(true), ..old(self)@ }),
            *final(self) == *final(r),
    {
        self.queue_private_mode(&[0x31, 0x30, 0x34, 0x39], true);
        proof {
            assert(self@.raw =~= old(self)@.raw + alt_screen_seq(true));
        }
        self
    }

    pub fn leave_alt_screen(&mut self) -> (r: &mut Self)
        requires
            old(self).inv(),
        ensures
            r.inv(),
            r.wf() == old(self).wf(),
            r@ == (TermView { raw: old(self)@.raw + alt_screen_seq(false), ..old(self)@ }),
            *final(self) == *final(r),
    {
        self.queue_private_mode(&[0x31, 0x30, 0x34, 0x39], false);
        proof {
            assert(self@.raw =~= old(self)@.raw + alt_screen_seq(false));
        }
        self
    }

    /// Completes the frame: returns the bytes to write to the terminal (queued
    /// control bytes, a screen clear on the first frame, then only the cells
    /// that changed), and records the frame as shown.
    pub fn flush(&mut self) -> (bytes: Vec<u8>)
        requires
            old(self).inv(),
        ensures
            final(self).inv(),
            final(self).wf() == old(self).wf(),
            bytes@ == flush_bytes(old(self)@),
            final(self)@ == spec_flushed(old(self)@),
    {
        if self.first_frame {
            self.raw_buf.push(0x1b);
            self.raw_buf.push(0x5b);
            self.raw_buf.push(0x32);
            self.raw_buf.push(0x4a);
        }
        let ghost with_clear = self.raw_buf@;
        proof {
            assert(with_clear =~= old(self)@.raw + (if old(self)@.first_frame {
                clear_screen_seq()
            } else {
                Seq::empty()
            }));
        }
        self.diff_emit();
        let mut bytes: Vec<u8> = Vec::new();
        std::mem::swap(&mut bytes, &mut self.raw_buf);
        bytes
    }

    /// Puts bytes that `flush` handed out, but that could not be written,
    /// back in front of the pending output, so the next flush sends them.
    pub fn requeue(&mut self, bytes: Vec<u8>)
        requires
            old(self).inv(),
        ensures
            final(self).inv(),
            final(self).wf() == old(self).wf(),
            final(self)@ == (TermView { raw: bytes@ + old(self)@.raw, ..old(self)@ }),
    {
        let mut all = bytes;
        let mut rest: Vec<u8> = Vec::new();
        std::mem::swap(&mut rest, &mut self.raw_buf);
        all.append(&mut rest);
        self.raw_buf = all;
    }

    fn diff_emit(&mut self)
        requires
            old(self).inv(),
        ensures
            final(self).inv(),
            final(self).wf() == old(self).wf(),
            final(self)@ == (TermView {
                raw: old(self)@.raw + diff_bytes(old(self)@),
                front: old(self)@.back,
                first_frame: false,
                ..old(self)@
            }),
    {
        let ghost v = self@;
        let ghost w = TermView { raw: Seq::empty(), ..v };
        let mut em = Emitter {
            out: Vec::with_capacity(4096),
            fg: (0, 0, 0),
            bg: (0, 0, 0),
            attrs: 0xff,
            crow: -1,
            ccol: -1,
        };
        let force = self.first_frame;
        let rows = self.rows;
        let cols = self.cols;
        let mut row: u16 = 0;
        while row < rows
            invariant
                self@ == v,
                term_inv(v),
                w == (TermView { raw: Seq::empty(), ..v }),
                rows == v.rows,
                cols == v.cols,
                force == v.first_frame,
                0 <= row <= rows,
                diff_rows(w, row as int) == em@,
                em.crow < rows,
            decreases rows - row,
        {
            let mut col: u16 = 0;
            while col < cols
                invariant
                    self@ == v,
                    term_inv(v),
                    w == (TermView { raw: Seq::empty(), ..v }),
                    rows == v.rows,
                    cols == v.cols,
                    force == v.first_frame,
                    0 <= row < rows,
                    0 <= col <= cols,
                    diff_row(w, diff_rows(w, row as int), row as int, col as int) == em@,
                    em.crow < rows,
                decreases cols - col,
            {
                proof {
                    lemma_index_in_bounds(col as int, row as int, cols as int, rows as int);
                    lemma_size_fits(cols, rows);
                    assert(row * cols <= row * cols + col);
                }
                let idx = (row as usize) * (cols as usize) + (col as usize);
                let b = self.back[idx];
                let f = self.front[idx];
                proof {
                    assert(w.back[cell_index(w, col as int, row as int)] == b);
                    assert(w.front[cell_index(w, col as int, row as int)] == f);
                }
                em.cell(b, f, force, row, col);
                col = col + 1;
            }
            row = row + 1;
        }
        let mut out = em.out;
        let ghost total = out@;
        if out.len() > 0 {
            push_sgr(&mut out, 0x30);
            proof {
                assert(out@ =~= total + sgr_reset());
            }
        }
        crate::text::push_bytes(&mut self.raw_buf, out.as_slice());
        let n = self.back.len();
        let mut i: usize = 0;
        let ghost pre = self@;
        while i < n
            invariant
                n == self.back@.len(),
                n == self.front@.len(),
                self.back@ == v.back,
                self@ == (TermView { front: self@.front, ..pre }),
                0 <= i <= n,
                forall|k: int| 0 <= k < i ==> self.front@[k] == v.back[k],
            decreases n - i,
        {
            let c = self.back[i];
            self.front.set(i, c);
            i = i + 1;
        }
        proof {
            assert(self.front@ =~= v.back);
        }
        self.first_frame = false;
    }
}

/// Running state of the differential emitter.
struct Emitter {
    out: Vec<u8>,
    fg: (u8, u8, u8),
    bg: (u8, u8, u8),
    attrs: u8,
    crow: i32,
    ccol: i32,
}

impl View for Emitter {
    type V = DiffState;

    closed spec fn view(&self) -> DiffState {
        DiffState {
            out: self.out@,
            fg: self.fg,
            bg: self.bg,
            attrs: self.attrs,
            crow: self.crow as int,
            ccol: self.ccol as int,
        }
    }
}

impl Emitter {
    /// Emits the cell at (col, row) whose new content is `b` and shown content `f`.
    fn cell(&mut self, b: Cell, f: Cell, force: bool, row: u16, col: u16)
        requires
            row < u16::MAX,
            col < u16::MAX,
        ensures
            final(self)@ == diff_cell(old(self)@, b, f, force, row as int, col as int),
            final(self).crow <= old(self).crow || final(self).crow == row,
    {
        if force || !cell_eq(b, f) {
            let ghost o0 = self.out@;
            if self.crow != row as i32 || self.ccol != col as i32 {
                self.out.push(0x1b);
                self.out.push(0x5b);
                push_decimal(&mut self.out, row as u32 + 1);
                self.out.push(0x3b);
                push_decimal(&mut self.out, col as u32 + 1);
                self.out.push(0x48);
                proof {
                    assert(self.out@ =~= o0 + move_seq((row + 1) as nat, (col + 1) as nat));
                }
            }
            let ghost o1 = self.out@;
            if b.attrs != self.attrs {
                push_attrs(&mut self.out, b.attrs);
                self.fg = (0, 0, 0);
                self.bg = (0, 0, 0);
                self.attrs = b.attrs;
            }
            if !rgb_eq(b.fg, self.fg) {
                push_color(&mut self.out, 0x33, b.fg);
                self.fg = b.fg;
            }
            if !rgb_eq(b.bg, self.bg) {
                push_color(&mut self.out, 0x34, b.bg);
                self.bg = b.bg;
            }
            push_char_utf8(&mut self.out, b.ch);
            self.fg = b.fg;
            self.bg = b.bg;
            self.ccol = col as i32 + 1;
            self.crow = row as i32;
        }
    }
}

fn push_sgr_if(out: &mut Vec<u8>, on: bool, d: u8)
    ensures
        final(out)@ == old(out)@ + if on { sgr1(d) } else { Seq::<u8>::empty() },
{
    if on {
        push_sgr(out, d);
    } else {
        assert(old(out)@ + Seq::<u8>::empty() =~= old(out)@);
    }
}

/// Appends the reset and attribute switches of `a`.
fn push_attrs(out: &mut Vec<u8>, a: u8)
    ensures
        final(out)@ == old(out)@ + attr_seq(a),
{
    let ghost o = out@;
    push_sgr(out, 0x30);
    push_sgr_if(out, a & ATTR_BOLD != 0, 0x31);
    push_sgr_if(out, a & ATTR_DIM != 0, 0x32);
    push_sgr_if(out, a & ATTR_ITALIC != 0, 0x33);
    push_sgr_if(out, a & ATTR_UNDERLINE != 0, 0x34);
    push_sgr_if(out, a & ATTR_STRIKETHROUGH != 0, 0x39);
    proof {
        assert(out@ =~= o + attr_seq(a));
    }
}

/// Appends `ESC [ d m`, with `d` "0" reset or a one-digit attribute.
fn push_sgr(out: &mut Vec<u8>, d: u8)
    ensures
        final(out)@ == old(out)@ + sgr1(d),
{
    out.push(0x1b);
    out.push(0x5b);
    out.push(d);
    out.push(0x6d);
    assert(final(out)@ =~= old(out)@ + sgr1(d));
}

/// Appends a 24-bit color switch; `lead` is the first digit: 3 foreground, 4 background.
fn push_color(out: &mut Vec<u8>, lead: u8, c: (u8, u8, u8))
    ensures
        final(out)@ == old(out)@ + color_seq(lead, c),
{
    out.push(0x1b);
    out.push(0x5b);
    out.push(lead);
    out.push(0x38);
    out.push(0x3b);
    out.push(0x32);
    out.push(0x3b);
    push_decimal(out, c.0 as u32);
    out.push(0x3b);
    push_decimal(out, c.1 as u32);
    out.push(0x3b);
    push_decimal(out, c.2 as u32);
    out.push(0x6d);
    assert(final(out)@ =~= old(out)@ + color_seq(lead, c));
}

proof fn lemma_diff_row_unchanged(v: TermView, st: DiffState, row: int, c: int)
    requires
        v.back == v.front,
        !v.first_frame,
    ensures
        diff_row(v, st, row, c) == st,
    decreases c,
{
    if c > 0 {
        lemma_diff_row_unchanged(v, st, row, c - 1);
    }
}

proof fn lemma_diff_rows_unchanged(v: TermView, r: int)
    requires
        v.back == v.front,
        !v.first_frame,
    ensures
        diff_rows(v, r) == diff_start(),
    decreases r,
{
    if r > 0 {
        lemma_diff_rows_unchanged(v, r - 1);
        lemma_diff_row_unchanged(v, diff_start(), r - 1, v.cols as int);
    }
}

/// Flushing again with nothing drawn or queued in between sends nothing.
pub proof fn law_flush_twice_sends_nothing(v: TermView)
    ensures
        flush_bytes(spec_flushed(v)) == Seq::<u8>::empty(),
{
    let w = spec_flushed(v);
    let z = TermView { raw: Seq::empty(), ..w };
    lemma_diff_rows_unchanged(z, z.rows as int);
    assert(flush_bytes(w) =~= Seq::<u8>::empty());
}

proof fn lemma_diff_cell_len(st: DiffState, b: Cell, f: Cell, force: bool, row: int, col: int)
    ensures
        diff_cell(st, b, f, force, row, col).out.len() >= st.out.len(),
        force || b != f ==> diff_cell(st, b, f, force, row, col).out.len() > st.out.len(),
{
    lemma_utf8_width_pos(b.ch);
}

/// Whether cell (x, y) is sent: every cell on a first frame, else one whose
/// drawn contents differ from what the terminal shows.
pub open spec fn cell_sent(v: TermView, x: int, y: int) -> bool {
    v.first_frame || v.back[cell_index(v, x, y)] != v.front[cell_index(v, x, y)]
}

proof fn lemma_diff_row_len(v: TermView, st: DiffState, row: int, c: int)
    requires
        0 <= c,
    ensures
        diff_row(v, st, row, c).out.len() >= st.out.len(),
        (exists|x: int| 0 <= x < c && #[trigger] cell_sent(v, x, row)) ==> diff_row(v, st, row, c).out.len() > st.out.len(),
    decreases c,
{
    if c > 0 {
        lemma_diff_row_len(v, st, row, c - 1);
        let s = diff_row(v, st, row, c - 1);
        lemma_diff_cell_len(
            s,
            v.back[cell_index(v, c - 1, row)],
            v.front[cell_index(v, c - 1, row)],
            v.first_frame,
            row,
            c - 1,
        );
    }
}

proof fn lemma_diff_rows_len(v: TermView, r: int)
    requires
        0 <= r,
    ensures
        (exists|x: int, y: int| 0 <= x < v.cols && 0 <= y < r && #[trigger] cell_sent(v, x, y)) ==> diff_rows(v, r).out.len() > 0,
    decreases r,
{
    if r > 0 {
        lemma_diff_rows_len(v, r - 1);
        lemma_diff_row_len(v, diff_rows(v, r - 1), r - 1, v.cols as int);
        if exists|x: int, y: int| 0 <= x < v.cols && 0 <= y < r && #[trigger] cell_sent(v, x, y) {
            let (x, y) = choose|x: int, y: int| 0 <= x < v.cols && 0 <= y < r && #[trigger] cell_sent(v, x, y);
            if y == r - 1 {
                assert(cell_sent(v, x, r - 1));
            } else {
                assert(cell_sent(v, x, y));
            }
        }
    }
}

/// A changed cell is redrawn: the emitter adds bytes that end with the
/// cell's character and leaves its pen at the cell's colors and attributes;
/// an unchanged cell adds nothing. A cell counts as changed when its
/// character, either color or its attributes differ.
pub proof fn law_changed_cell_is_redrawn(st: DiffState, b: Cell, f: Cell, row: int, col: int)
    ensures
        b == f ==> diff_cell(st, b, f, false, row, col) == st,
        b != f ==> ({
            let e = diff_cell(st, b, f, false, row, col);
            let ch = encode_scalar(b.ch as u32);
            &&& e.out.len() >= st.out.len() + ch.len()
            &&& e.out.take(st.out.len() as int) == st.out
            &&& e.out.skip(e.out.len() - ch.len()) == ch
            &&& e.fg == b.fg && e.bg == b.bg && e.attrs == b.attrs
            &&& e.crow == row && e.ccol == col + 1
        }),
        b != f && st.crow == row && st.ccol == col && st.attrs == b.attrs && st.bg == b.bg ==> diff_cell(
            st,
            b,
            f,
            false,
            row,
            col,
        ).out == st.out + (if st.fg == b.fg {
            Seq::<u8>::empty()
        } else {
            color_seq(0x33, b.fg)
        }) + encode_scalar(b.ch as u32),
        b != f && st.crow == row && st.ccol == col && st.attrs == b.attrs && st.fg == b.fg ==> diff_cell(
            st,
            b,
            f,
            false,
            row,
            col,
        ).out == st.out + (if st.bg == b.bg {
            Seq::<u8>::empty()
        } else {
            color_seq(0x34, b.bg)
        }) + encode_scalar(b.ch as u32),
{
    if b != f {
        let e = diff_cell(st, b, f, false, row, col);
        let ch = encode_scalar(b.ch as u32);
        let o1 = if st.crow != row || st.ccol != col {
            st.out + move_seq((row + 1) as nat, (col + 1) as nat)
        } else {
            st.out
        };
        let o2 = if b.attrs != st.attrs {
            o1 + attr_seq(b.attrs)
        } else {
            o1
        };
        let lfg = if b.attrs != st.attrs { (0u8, 0u8, 0u8) } else { st.fg };
        let lbg = if b.attrs != st.attrs { (0u8, 0u8, 0u8) } else { st.bg };
        let o3 = if b.fg != lfg { o2 + color_seq(0x33, b.fg) } else { o2 };
        let o4 = if b.bg != lbg { o3 + color_seq(0x34, b.bg) } else { o3 };
        assert(e.out == o4 + ch);
        assert(o4.take(st.out.len() as int) =~= st.out);
        assert(e.out.take(st.out.len() as int) =~= st.out);
        assert(e.out.skip(e.out.len() - ch.len()) =~= ch);
    }
}

/// A flush sends exactly what changed: after a first frame, the bytes that
/// bring the terminal up to date are empty exactly when every cell drawn is
/// the cell shown (a cell differing only in color or attributes counts as
/// changed); a first frame with any cell sends something.
pub proof fn law_flush_sends_changes(v: TermView)
    requires
        term_inv(v),
    ensures
        !v.first_frame ==> (diff_bytes(v).len() == 0 <==> v.back == v.front),
        v.first_frame && v.cols > 0 && v.rows > 0 ==> diff_bytes(v).len() > 0,
{
    let w = TermView { raw: Seq::empty(), ..v };
    if !v.first_frame && v.back == v.front {
        lemma_diff_rows_unchanged(w, w.rows as int);
    }
    if v.first_frame && v.cols > 0 && v.rows > 0 {
        assert(cell_sent(w, 0, 0));
        lemma_diff_rows_len(w, w.rows as int);
    }
    if !v.first_frame && v.back != v.front {
        assert(v.back.len() == v.front.len());
        let i = choose|i: int| 0 <= i < v.back.len() && v.back[i] != v.front[i];
        if !(exists|i: int| 0 <= i < v.back.len() && v.back[i] != v.front[i]) {
            assert(v.back =~= v.front);
        }
        let cols = v.cols as int;
        let rows = v.rows as int;
        assert(cols > 0) by (nonlinear_arith)
            requires
                0 <= i < cols * rows,
                cols >= 0,
                rows >= 0,
        ;
        let x = i % cols;
        let y = i / cols;
        assert(0 <= x < cols && 0 <= y < rows && y * cols + x == i) by (nonlinear_arith)
            requires
                0 <= i < cols * rows,
                cols > 0,
                x == i % cols,
                y == i / cols,
        ;
        assert(cell_index(w, x, y) == i);
        assert(cell_sent(w, x, y));
        lemma_diff_rows_len(w, w.rows as int);
    }
}

} // verus!
