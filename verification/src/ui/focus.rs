//! Keyboard and mouse focus, button activation and text-field editing.
use vstd::prelude::*;

use crate::base::context::{Context, CtxView, is_live, live_ids};
use crate::base::input::{Input, InputView, KeyCode, MouseButton, MouseEvent, MouseKind};
use crate::base::node::{Content, Interaction, NodeId, NodeView};
use crate::base::store::Store;
use crate::text::{chars_to_string, str_chars};
use crate::ui::order::{FocusEntry, Keyed, law_stable_sort_ascending, sort_by_key, stable_sort};

verus! {

/// Focus tracking store.
pub struct UiState {
    pub focus_list: Vec<NodeId>,
    pub focus_index: usize,
}

impl Store for UiState {}

impl UiState {
    pub fn new() -> (s: Self)
        ensures
            s.focus_list@ == Seq::<NodeId>::empty(),
            s.focus_index == 0,
    {
        UiState { focus_list: Vec::new(), focus_index: 0 }
    }
}

// Focus candidates.

/// The focusable, visible live nodes among `ids`, in order, with their position.
pub open spec fn candidates_of(v: CtxView, ids: Seq<NodeId>) -> Seq<FocusEntry>
    decreases ids.len(),
{
    if ids.len() == 0 {
        Seq::empty()
    } else {
        let rest = candidates_of(v, ids.drop_last());
        let k = ids.last();
        if is_live(v, k as int) && v.slots[k as int].unwrap().focusable && v.slots[k as int].unwrap().visible {
            let n = v.slots[k as int].unwrap();
            rest.push(FocusEntry { id: n.id, y: n.rect.y, x: n.rect.x })
        } else {
            rest
        }
    }
}

/// The focus order: focusable visible nodes, by row, then column, then slot.
pub open spec fn focus_order(v: CtxView) -> Seq<FocusEntry> {
    stable_sort(candidates_of(v, live_ids(v)))
}

/// The focus order goes by position: rows never go up along it, and within
/// a row columns never go left.
pub proof fn law_focus_order_by_position(v: CtxView)
    ensures
        forall|i: int, j: int|
            0 <= i <= j < focus_order(v).len() ==> (#[trigger] focus_order(v)[i]).y < (#[trigger] focus_order(v)[j]).y
                || (focus_order(v)[i].y == focus_order(v)[j].y && focus_order(v)[i].x <= focus_order(v)[j].x),
{
    let s = focus_order(v);
    law_stable_sort_ascending(candidates_of(v, live_ids(v)));
    assert forall|i: int, j: int| 0 <= i <= j < s.len() implies (#[trigger] s[i]).y < (#[trigger] s[j]).y || (s[i].y
        == s[j].y && s[i].x <= s[j].x) by {
        let (y1, x1, y2, x2) = (s[i].y as int, s[i].x as int, s[j].y as int, s[j].x as int);
        assert(s[i].spec_key() <= s[j].spec_key());
        assert(y1 * 65536 + x1 <= y2 * 65536 + x2);
        assert(y1 < y2 || (y1 == y2 && x1 <= x2)) by (nonlinear_arith)
            requires
                y1 * 65536 + x1 <= y2 * 65536 + x2,
                0 <= x1 < 65536,
                0 <= x2 < 65536,
                0 <= y1,
                0 <= y2,
        ;
    }
}

/// The ids of focus entries.
pub open spec fn entry_ids(f: Seq<FocusEntry>) -> Seq<NodeId> {
    f.map_values(|e: FocusEntry| e.id)
}

fn collect_candidates(ctx: &Context) -> (r: Vec<FocusEntry>)
    requires
        ctx.wf(),
    ensures
        r@ == candidates_of(ctx@, live_ids(ctx@)),
{
    let ids = ctx.live_ids();
    let mut r: Vec<FocusEntry> = Vec::new();
    let n = ids.len();
    let mut i: usize = 0;
    while i < n
        invariant
            n == ids@.len(),
            ids@ == live_ids(ctx@),
            0 <= i <= n,
            r@ == candidates_of(ctx@, ids@.take(i as int)),
        decreases n - i,
    {
        proof {
            assert(ids@.take(i + 1).drop_last() =~= ids@.take(i as int));
            assert(ids@.take(i + 1).last() == ids@[i as int]);
        }
        match ctx.node(ids[i]) {
            Some(node) => {
                if node.focusable && node.visible {
                    r.push(FocusEntry { id: node.id, y: node.rect.y, x: node.rect.x });
                }
            },
            None => {},
        }
        i = i + 1;
    }
    proof {
        assert(ids@.take(n as int) =~= ids@);
    }
    r
}

// Positions.

/// Whether `p` is the first position of `x` in `s`.
pub open spec fn is_first_pos(s: Seq<NodeId>, x: NodeId, p: int) -> bool {
    0 <= p < s.len() && s[p] == x && forall|j: int| 0 <= j < p ==> s[j] != x
}

/// The first position of `x` in `s`, or -1.
pub open spec fn first_pos(s: Seq<NodeId>, x: NodeId) -> int {
    if exists|p: int| is_first_pos(s, x, p) {
        choose|p: int| is_first_pos(s, x, p)
    } else {
        -1
    }
}

proof fn lemma_first_pos_unique(s: Seq<NodeId>, x: NodeId, p: int)
    requires
        is_first_pos(s, x, p),
    ensures
        first_pos(s, x) == p,
{
    let q = choose|q: int| is_first_pos(s, x, q);
    if q < p {
        assert(s[q] != x);
    } else if p < q {
        assert(s[p] != x);
    }
}

fn position(s: &Vec<NodeId>, x: NodeId) -> (r: Option<usize>)
    ensures
        match r {
            Some(p) => p == first_pos(s@, x),
            None => first_pos(s@, x) == -1 && !s@.contains(x),
        },
{
    let n = s.len();
    let mut i: usize = 0;
    while i < n
        invariant
            n == s@.len(),
            0 <= i <= n,
            forall|j: int| 0 <= j < i ==> s@[j] != x,
        decreases n - i,
    {
        if s[i] == x {
            proof {
                lemma_first_pos_unique(s@, x, i as int);
            }
            return Some(i);
        }
        i = i + 1;
    }
    proof {
        assert(!exists|p: int| is_first_pos(s@, x, p));
    }
    None
}

// Mouse.

/// Whether the node in slot `id` is live and its rectangle holds (col, row).
pub open spec fn node_holds(v: CtxView, id: NodeId, col: int, row: int) -> bool {
    is_live(v, id as int) && {
        let r = v.slots[id as int].unwrap().rect;
        r.x <= col < r.x + r.width && r.y <= row < r.y + r.height
    }
}

/// The first entry of `f`, from position `i` on, whose node holds (col, row).
pub open spec fn hit_from(v: CtxView, f: Seq<FocusEntry>, i: int, col: int, row: int) -> Option<NodeId>
    decreases f.len() - i,
{
    if i < 0 || i >= f.len() {
        None
    } else if node_holds(v, f[i].id, col, row) {
        Some(f[i].id)
    } else {
        hit_from(v, f, i + 1, col, row)
    }
}

/// The entry clicked by the left-button presses among `ev`: the last press
/// that hit an entry decides.
pub open spec fn click_target(v: CtxView, f: Seq<FocusEntry>, ev: Seq<MouseEvent>) -> Option<NodeId>
    decreases ev.len(),
{
    if ev.len() == 0 {
        None
    } else {
        let prev = click_target(v, f, ev.drop_last());
        let e = ev.last();
        if e.kind == MouseKind::Press(MouseButton::Left) {
            match hit_from(v, f, 0, e.col as int, e.row as int) {
                Some(id) => Some(id),
                None => prev,
            }
        } else {
            prev
        }
    }
}

/// Whether there is a left-button press among `ev`.
pub open spec fn has_left_press(ev: Seq<MouseEvent>) -> bool {
    exists|k: int| 0 <= k < ev.len() && ev[k].kind == MouseKind::Press(MouseButton::Left)
}

/// The rectangles of the nodes of the entries have their far edges within 16 bits.
pub open spec fn rects_fit(v: CtxView, f: Seq<FocusEntry>) -> bool {
    forall|i: int| 0 <= i < f.len() && is_live(v, #[trigger] f[i].id as int) ==> {
        let r = v.slots[f[i].id as int].unwrap().rect;
        r.x + r.width <= u16::MAX && r.y + r.height <= u16::MAX
    }
}

fn hit(ctx: &Context, f: &Vec<FocusEntry>, col: u16, row: u16) -> (r: Option<NodeId>)
    requires
        rects_fit(ctx@, f@),
    ensures
        r == hit_from(ctx@, f@, 0, col as int, row as int),
{
    let n = f.len();
    let mut i: usize = 0;
    while i < n
        invariant
            n == f@.len(),
            0 <= i <= n,
            rects_fit(ctx@, f@),
            hit_from(ctx@, f@, 0, col as int, row as int) == hit_from(ctx@, f@, i as int, col as int, row as int),
        decreases n - i,
    {
        let fid = f[i].id;
        match ctx.node(fid) {
            Some(node) => {
                let r = node.rect;
                proof {
                    assert(is_live(ctx@, f@[i as int].id as int));
                }
                if col >= r.x && col < r.x + r.width && row >= r.y && row < r.y + r.height {
                    return Some(fid);
                }
            },
            None => {},
        }
        i = i + 1;
    }
    None
}

fn clicked_entry(ctx: &Context, f: &Vec<FocusEntry>, ev: &[MouseEvent]) -> (r: Option<NodeId>)
    requires
        has_left_press(ev@) ==> rects_fit(ctx@, f@),
    ensures
        r == click_target(ctx@, f@, ev@),
{
    let n = ev.len();
    let mut i: usize = 0;
    let mut clicked: Option<NodeId> = None;
    while i < n
        invariant
            n == ev@.len(),
            0 <= i <= n,
            has_left_press(ev@) ==> rects_fit(ctx@, f@),
            clicked == click_target(ctx@, f@, ev@.take(i as int)),
        decreases n - i,
    {
        let e = ev[i];
        proof {
            assert(ev@.take(i + 1).drop_last() =~= ev@.take(i as int));
            assert(ev@.take(i + 1).last() == e);
        }
        match e.kind {
            MouseKind::Press(MouseButton::Left) => {
                proof {
                    assert(ev@[i as int].kind == MouseKind::Press(MouseButton::Left));
                }
                match hit(ctx, f, e.col, e.row) {
                    Some(id) => {
                        clicked = Some(id);
                    },
                    None => {},
                }
            },
            _ => {},
        }
        i = i + 1;
    }
    proof {
        assert(ev@.take(n as int) =~= ev@);
    }
    clicked
}

// Keyboard navigation.

/// Which navigation keys were pressed this frame.
#[derive(Clone, Copy)]
pub struct NavKeys {
    pub tab_next: bool,
    pub tab_prev: bool,
    pub up: bool,
    pub down: bool,
    pub left: bool,
    pub right: bool,
    pub activate: bool,
}

/// The navigation keys of a frame's input: Tab, BackTab, the arrows, and
/// Enter or Space to activate.
pub open spec fn nav_keys(i: InputView) -> NavKeys {
    NavKeys {
        tab_next: i.pressed.contains(KeyCode::Tab),
        tab_prev: i.pressed.contains(KeyCode::BackTab),
        up: i.pressed.contains(KeyCode::Up),
        down: i.pressed.contains(KeyCode::Down),
        left: i.pressed.contains(KeyCode::Left),
        right: i.pressed.contains(KeyCode::Right),
        activate: i.pressed.contains(KeyCode::Enter) || i.pressed.contains(KeyCode::Char(' ')),
    }
}

/// Whether an entry at (y, x) lies in the arrow's direction from (cy, cx);
/// up wins over down, down over left, left over right.
pub open spec fn in_direction(k: NavKeys, y: int, x: int, cy: int, cx: int) -> bool {
    if k.up {
        y < cy
    } else if k.down {
        y > cy
    } else if k.left {
        x < cx
    } else {
        x > cx
    }
}

pub open spec fn abs_diff(a: int, b: int) -> int {
    if a >= b {
        a - b
    } else {
        b - a
    }
}

/// Distance for arrow navigation: the distance along the arrow's axis weighs
/// 10000 times the distance across it.
pub open spec fn nav_cost(k: NavKeys, y: int, x: int, cy: int, cx: int) -> int {
    if k.up || k.down {
        abs_diff(y, cy) * 10000 + abs_diff(x, cx)
    } else {
        abs_diff(x, cx) * 10000 + abs_diff(y, cy)
    }
}

/// Among the first `n` entries other than `ci`, the first one in the
/// arrow's direction with the smallest cost, with that cost.
pub open spec fn best_upto(f: Seq<FocusEntry>, ci: int, k: NavKeys, n: int) -> Option<(int, int)>
    decreases n,
{
    if n <= 0 {
        None
    } else {
        let b = best_upto(f, ci, k, n - 1);
        let i = n - 1;
        let cy = f[ci].y as int;
        let cx = f[ci].x as int;
        if i == ci || !in_direction(k, f[i].y as int, f[i].x as int, cy, cx) {
            b
        } else {
            let c = nav_cost(k, f[i].y as int, f[i].x as int, cy, cx);
            match b {
                None => Some((i, c)),
                Some((bi, bc)) => if c < bc {
                    Some((i, c))
                } else {
                    b
                },
            }
        }
    }
}

/// The focus position after this frame's input, over the focus order `f`
/// (not empty): an out-of-range position starts over at 0; a click moves to
/// the clicked entry; Tab moves forward and BackTab backward, wrapping; an
/// arrow moves to the nearest entry in its direction.
pub open spec fn next_focus(f: Seq<FocusEntry>, index: int, k: NavKeys, clicked: Option<NodeId>) -> int {
    let ids = entry_ids(f);
    let len = f.len() as int;
    let i1 = if index >= len {
        0
    } else {
        index
    };
    let i2 = match clicked {
        Some(c) => if first_pos(ids, c) >= 0 {
            first_pos(ids, c)
        } else {
            i1
        },
        None => i1,
    };
    let i3 = if k.tab_next {
        (i2 + 1) % len
    } else {
        i2
    };
    let i4 = if k.tab_prev {
        (i3 + len - 1) % len
    } else {
        i3
    };
    if k.up || k.down || k.left || k.right {
        let p = first_pos(ids, ids[i4]);
        let ci = if p >= 0 {
            p
        } else {
            0
        };
        match best_upto(f, ci, k, len) {
            Some((bi, bc)) => {
                let q = first_pos(ids, f[bi].id);
                if q >= 0 {
                    q
                } else {
                    i4
                }
            },
            None => i4,
        }
    } else {
        i4
    }
}

proof fn lemma_wrap_back(i: int, len: int)
    requires
        0 <= i < len,
    ensures
        (i + len - 1) % len == if i == 0 {
            len - 1
        } else {
            i - 1
        },
{
    if i == 0 {
        vstd::arithmetic::div_mod::lemma_small_mod((len - 1) as nat, len as nat);
    } else {
        vstd::arithmetic::div_mod::lemma_mod_add_multiples_vanish(i - 1, len);
        vstd::arithmetic::div_mod::lemma_small_mod((i - 1) as nat, len as nat);
    }
}

proof fn lemma_best_upto_range(f: Seq<FocusEntry>, ci: int, k: NavKeys, n: int)
    ensures
        best_upto(f, ci, k, n) matches Some((bi, bc)) ==> 0 <= bi < n,
    decreases n,
{
    if n > 0 {
        lemma_best_upto_range(f, ci, k, n - 1);
    }
}

fn abs_diff_u16(a: u16, b: u16) -> (r: u32)
    ensures
        r == abs_diff(a as int, b as int),
{
    if a >= b {
        (a - b) as u32
    } else {
        (b - a) as u32
    }
}

fn best_target(f: &Vec<FocusEntry>, ci: usize, k: NavKeys) -> (r: Option<usize>)
    requires
        ci < f@.len(),
    ensures
        match best_upto(f@, ci as int, k, f@.len() as int) {
            Some((bi, bc)) => r == Some(bi as usize),
            None => r is None,
        },
        r matches Some(b) ==> b < f@.len(),
{
    let cy = f[ci].y;
    let cx = f[ci].x;
    let n = f.len();
    let mut best: Option<(usize, u32)> = None;
    let mut i: usize = 0;
    while i < n
        invariant
            n == f@.len(),
            ci < n,
            cy == f@[ci as int].y,
            cx == f@[ci as int].x,
            0 <= i <= n,
            match best_upto(f@, ci as int, k, i as int) {
                Some((bi, bc)) => best == Some((bi as usize, bc as u32)) && 0 <= bi < i && 0 <= bc <= u32::MAX,
                None => best is None,
            },
        decreases n - i,
    {
        let y = f[i].y;
        let x = f[i].x;
        let ok = if k.up {
            y < cy
        } else if k.down {
            y > cy
        } else if k.left {
            x < cx
        } else {
            x > cx
        };
        if i != ci && ok {
            let dx = abs_diff_u16(x, cx);
            let dy = abs_diff_u16(y, cy);
            let cost = if k.up || k.down {
                dy * 10000 + dx
            } else {
                dx * 10000 + dy
            };
            match best {
                None => {
                    best = Some((i, cost));
                },
                Some((_, bc)) => {
                    if cost < bc {
                        best = Some((i, cost));
                    }
                },
            }
        }
        i = i + 1;
    }
    match best {
        Some((bi, _)) => Some(bi),
        None => None,
    }
}

fn entry_id_list(f: &Vec<FocusEntry>) -> (r: Vec<NodeId>)
    ensures
        r@ == entry_ids(f@),
{
    let mut r: Vec<NodeId> = Vec::new();
    let n = f.len();
    let mut i: usize = 0;
    while i < n
        invariant
            n == f@.len(),
            0 <= i <= n,
            r@ == entry_ids(f@).take(i as int),
        decreases n - i,
    {
        r.push(f[i].id);
        proof {
            assert(entry_ids(f@).take(i + 1) =~= entry_ids(f@).take(i as int).push(f@[i as int].id));
        }
        i = i + 1;
    }
    proof {
        assert(entry_ids(f@).take(n as int) =~= entry_ids(f@));
    }
    r
}

/// The focus position after this frame's input (see `next_focus`).
pub fn navigate(f: &Vec<FocusEntry>, ids: &Vec<NodeId>, index: usize, k: NavKeys, clicked: Option<NodeId>) -> (r: usize)
    requires
        f@.len() > 0,
        ids@ == entry_ids(f@),
    ensures
        r == next_focus(f@, index as int, k, clicked),
        r < f@.len(),
{
    let len = f.len();
    let mut i = if index >= len {
        0
    } else {
        index
    };
    match clicked {
        Some(c) => match position(ids, c) {
            Some(p) => {
                i = p;
            },
            None => {},
        },
        None => {},
    }
    if k.tab_next {
        i = (i + 1) % len;
    }
    if k.tab_prev {
        let ghost i3 = i as int;
        i = if i == 0 {
            len - 1
        } else {
            i - 1
        };
        proof {
            lemma_wrap_back(i3, len as int);
        }
    }
    proof {
        let ids_s = entry_ids(f@);
        let lenI = f@.len() as int;
        let i1 = if index >= lenI { 0 } else { index as int };
        let i2 = match clicked {
            Some(c) => if first_pos(ids_s, c) >= 0 { first_pos(ids_s, c) } else { i1 },
            None => i1,
        };
        let i3 = if k.tab_next { (i2 + 1) % lenI } else { i2 };
        let i4 = if k.tab_prev { (i3 + lenI - 1) % lenI } else { i3 };
        assert(i == i4);
    }
    if k.up || k.down || k.left || k.right {
        let current = ids[i];
        let ci = match position(ids, current) {
            Some(p) => p,
            None => 0,
        };
        proof {
            lemma_best_upto_range(f@, ci as int, k, f@.len() as int);
        }
        match best_target(f, ci, k) {
            Some(bi) => {
                match position(ids, f[bi].id) {
                    Some(q) => {
                        i = q;
                    },
                    None => {},
                }
            },
            None => {},
        }
    }
    i
}

// Text fields.

/// A text field after one key: a character is inserted at the cursor (at the
/// end when the cursor is past it) when the text is shorter than `max_len`,
/// and the cursor moves past it; Backspace deletes the character before the
/// cursor; Left and Right move the cursor within the text; other keys do nothing.
pub open spec fn edit_step(s: (Seq<char>, nat), max_len: nat, key: KeyCode) -> (Seq<char>, nat) {
    let v = s.0;
    let c = s.1;
    match key {
        KeyCode::Char(ch) => if v.len() < max_len {
            let pos = if c < v.len() {
                c as int
            } else {
                v.len() as int
            };
            (v.insert(pos, ch), c + 1)
        } else {
            s
        },
        KeyCode::Backspace => if c > 0 {
            (v.remove(c - 1), (c - 1) as nat)
        } else {
            s
        },
        KeyCode::Left => if c > 0 {
            (v, (c - 1) as nat)
        } else {
            s
        },
        KeyCode::Right => if c < v.len() {
            (v, c + 1)
        } else {
            s
        },
        _ => s,
    }
}

/// Whether one key can be applied: Backspace needs a character before the
/// cursor, and an insertion needs room to move the cursor.
pub open spec fn edit_step_ok(s: (Seq<char>, nat), max_len: nat, key: KeyCode) -> bool {
    match key {
        KeyCode::Char(_) => s.0.len() < max_len ==> s.1 < usize::MAX,
        KeyCode::Backspace => s.1 > 0 ==> s.1 - 1 < s.0.len(),
        _ => true,
    }
}

/// A text field after each key of `keys` in turn.
pub open spec fn edit_keys(s: (Seq<char>, nat), max_len: nat, keys: Seq<KeyCode>) -> (Seq<char>, nat)
    decreases keys.len(),
{
    if keys.len() == 0 {
        s
    } else {
        edit_step(edit_keys(s, max_len, keys.drop_last()), max_len, keys.last())
    }
}

/// Whether each key of `keys` can be applied in turn.
pub open spec fn edits_ok(s: (Seq<char>, nat), max_len: nat, keys: Seq<KeyCode>) -> bool
    decreases keys.len(),
{
    keys.len() == 0 || (edits_ok(s, max_len, keys.drop_last()) && edit_step_ok(
        edit_keys(s, max_len, keys.drop_last()),
        max_len,
        keys.last(),
    ))
}

/// Applies `keys` to a text field's characters and cursor.
pub fn edit_text(value: &mut Vec<char>, cursor: &mut usize, max_len: usize, keys: &[KeyCode])
    requires
        edits_ok((old(value)@, *old(cursor) as nat), max_len as nat, keys@),
    ensures
        (final(value)@, *final(cursor) as nat) == edit_keys((old(value)@, *old(cursor) as nat), max_len as nat, keys@),
{
    let n = keys.len();
    let mut i: usize = 0;
    let ghost s0 = (value@, *cursor as nat);
    proof {
        assert(keys@.take(0) =~= Seq::<KeyCode>::empty());
    }
    while i < n
        invariant
            n == keys@.len(),
            0 <= i <= n,
            edits_ok(s0, max_len as nat, keys@),
            (value@, *cursor as nat) == edit_keys(s0, max_len as nat, keys@.take(i as int)),
        decreases n - i,
    {
        proof {
            assert(keys@.take(i + 1).drop_last() =~= keys@.take(i as int));
            assert(keys@.take(i + 1).last() == keys@[i as int]);
            lemma_edits_ok_prefix(s0, max_len as nat, keys@, i + 1);
        }
        match keys[i] {
            KeyCode::Char(c) => {
                if value.len() < max_len {
                    let pos = if *cursor < value.len() {
                        *cursor
                    } else {
                        value.len()
                    };
                    value.insert(pos, c);
                    *cursor = *cursor + 1;
                }
            },
            KeyCode::Backspace => {
                if *cursor > 0 {
                    *cursor = *cursor - 1;
                    value.remove(*cursor);
                }
            },
            KeyCode::Left => {
                if *cursor > 0 {
                    *cursor = *cursor - 1;
                }
            },
            KeyCode::Right => {
                if *cursor < value.len() {
                    *cursor = *cursor + 1;
                }
            },
            _ => {},
        }
        i = i + 1;
    }
    proof {
        assert(keys@.take(n as int) =~= keys@);
    }
}

proof fn lemma_edits_ok_prefix(s: (Seq<char>, nat), max_len: nat, keys: Seq<KeyCode>, m: int)
    requires
        edits_ok(s, max_len, keys),
        0 <= m <= keys.len(),
    ensures
        edits_ok(s, max_len, keys.take(m)),
    decreases keys.len() - m,
{
    if m < keys.len() {
        lemma_edits_ok_prefix(s, max_len, keys, m + 1);
        assert(keys.take(m + 1).drop_last() =~= keys.take(m));
    } else {
        assert(keys.take(m) =~= keys);
    }
}

/// Typing a character and then Backspace leaves a field as it was, when
/// there was room for the character and the cursor was within the text.
pub proof fn law_type_then_backspace(s: (Seq<char>, nat), max_len: nat, c: char)
    requires
        s.1 <= s.0.len(),
        s.0.len() < max_len,
    ensures
        edit_step(edit_step(s, max_len, KeyCode::Char(c)), max_len, KeyCode::Backspace) == s,
{
    let t = edit_step(s, max_len, KeyCode::Char(c));
    assert(t.0 == s.0.insert(s.1 as int, c));
    assert(t.0.remove(s.1 as int) =~= s.0);
}

/// The cursor keys move the cursor and leave the text alone: Left moves it
/// one character back unless it is at the start, Right one character
/// forward unless it is at the end; Left then Right, and Right then Left,
/// bring it back. A character typed with room for it is inserted at the
/// cursor, which moves past it; Backspace removes the character before the
/// cursor, which moves back onto its place. The same moves hold for the
/// length and cursor alone (`len_keys`).
pub proof fn law_cursor_keys(v: Seq<char>, c: nat, max_len: nat, ch: char)
    ensures
        c > 0 ==> edit_keys((v, c), max_len, seq![KeyCode::Left]) == (v, (c - 1) as nat),
        c == 0 ==> edit_keys((v, c), max_len, seq![KeyCode::Left]) == (v, c),
        c < v.len() ==> edit_keys((v, c), max_len, seq![KeyCode::Right]) == (v, c + 1),
        c >= v.len() ==> edit_keys((v, c), max_len, seq![KeyCode::Right]) == (v, c),
        0 < c <= v.len() ==> edit_keys((v, c), max_len, seq![KeyCode::Left, KeyCode::Right]) == (v, c),
        c < v.len() ==> edit_keys((v, c), max_len, seq![KeyCode::Right, KeyCode::Left]) == (v, c),
        c <= v.len() && v.len() < max_len ==> edit_keys((v, c), max_len, seq![KeyCode::Char(ch)]) == (
            v.take(c as int) + seq![ch] + v.skip(c as int),
            c + 1,
        ),
        0 < c <= v.len() ==> edit_keys((v, c), max_len, seq![KeyCode::Backspace]) == (
            v.take(c - 1) + v.skip(c as int),
            (c - 1) as nat,
        ),
        c > 0 ==> len_keys((v.len(), c), max_len, seq![KeyCode::Left]) == (v.len(), (c - 1) as nat),
        c < v.len() ==> len_keys((v.len(), c), max_len, seq![KeyCode::Right]) == (v.len(), c + 1),
{
    let l = seq![KeyCode::Left];
    let r = seq![KeyCode::Right];
    let lr = seq![KeyCode::Left, KeyCode::Right];
    let rl = seq![KeyCode::Right, KeyCode::Left];
    assert(l.drop_last() =~= Seq::<KeyCode>::empty());
    assert(r.drop_last() =~= Seq::<KeyCode>::empty());
    assert(lr.drop_last() =~= l);
    assert(rl.drop_last() =~= r);
    let t = seq![KeyCode::Char(ch)];
    assert(t.drop_last() =~= Seq::<KeyCode>::empty());
    let b = seq![KeyCode::Backspace];
    assert(b.drop_last() =~= Seq::<KeyCode>::empty());
    let s0 = (v, c);
    assert(edit_keys(s0, max_len, Seq::<KeyCode>::empty()) == s0);
    assert(edit_keys(s0, max_len, l) == edit_step(s0, max_len, KeyCode::Left));
    assert(edit_keys(s0, max_len, r) == edit_step(s0, max_len, KeyCode::Right));
    assert(edit_keys(s0, max_len, lr) == edit_step(edit_step(s0, max_len, KeyCode::Left), max_len, KeyCode::Right));
    assert(edit_keys(s0, max_len, rl) == edit_step(edit_step(s0, max_len, KeyCode::Right), max_len, KeyCode::Left));
    assert(edit_keys(s0, max_len, t) == edit_step(s0, max_len, KeyCode::Char(ch)));
    assert(edit_keys(s0, max_len, b) == edit_step(s0, max_len, KeyCode::Backspace));
    let n0 = (v.len(), c);
    assert(len_keys(n0, max_len, Seq::<KeyCode>::empty()) == n0);
    assert(len_keys(n0, max_len, l) == len_step(n0, max_len, KeyCode::Left));
    assert(len_keys(n0, max_len, r) == len_step(n0, max_len, KeyCode::Right));
    if c <= v.len() {
        assert(v.insert(c as int, ch) =~= v.take(c as int) + seq![ch] + v.skip(c as int));
    }
    if 0 < c <= v.len() {
        assert(v.remove(c - 1) =~= v.take(c - 1) + v.skip(c as int));
    }
}

/// Only Tab, or only BackTab, pressed in a frame.
pub open spec fn tab_keys(forward: bool) -> NavKeys {
    NavKeys { tab_next: forward, tab_prev: !forward, up: false, down: false, left: false, right: false, activate: false }
}

/// Tab in one frame and BackTab in the next bring the focus back where it was.
pub proof fn law_tab_then_backtab(f: Seq<FocusEntry>, i: int)
    requires
        0 <= i < f.len(),
    ensures
        next_focus(f, next_focus(f, i, tab_keys(true), None), tab_keys(false), None) == i,
{
    let len = f.len() as int;
    let j = next_focus(f, i, tab_keys(true), None);
    if i + 1 < len {
        assert((i + 1) % len == i + 1) by (nonlinear_arith)
            requires
                0 <= i + 1 < len,
        ;
        assert((i + 1 + len - 1) % len == i) by (nonlinear_arith)
            requires
                0 <= i < len,
        ;
    } else {
        assert((i + 1) % len == 0) by (nonlinear_arith)
            requires
                i + 1 == len,
                len > 0,
        ;
        assert((0 + len - 1) % len == i) by (nonlinear_arith)
            requires
                i == len - 1,
                len > 0,
        ;
    }
}

/// Only the given arrow pressed in a frame.
pub open spec fn arrow_keys(up: bool, down: bool, left: bool, right: bool) -> NavKeys {
    NavKeys { tab_next: false, tab_prev: false, up, down, left, right, activate: false }
}

/// No two entries of `f` belong to the same node.
pub open spec fn distinct_ids(f: Seq<FocusEntry>) -> bool {
    forall|a: int, b: int| 0 <= a < b < f.len() ==> f[a].id != f[b].id
}

/// What the search for the nearest entry finds: an entry other than `ci`,
/// in the arrow's direction, found whenever one exists.
proof fn lemma_best_upto_found(f: Seq<FocusEntry>, ci: int, k: NavKeys, n: int)
    requires
        0 <= ci < f.len(),
        n <= f.len(),
    ensures
        best_upto(f, ci, k, n) matches Some((bi, bc)) ==> 0 <= bi < n && bi != ci && in_direction(
            k,
            f[bi].y as int,
            f[bi].x as int,
            f[ci].y as int,
            f[ci].x as int,
        ),
        (exists|j: int| 0 <= j < n && j != ci && #[trigger] in_direction(k, f[j].y as int, f[j].x as int, f[ci].y as int, f[ci].x as int))
            ==> best_upto(f, ci, k, n) is Some,
    decreases n,
{
    if n > 0 {
        lemma_best_upto_found(f, ci, k, n - 1);
        if exists|j: int| 0 <= j < n && j != ci && #[trigger] in_direction(k, f[j].y as int, f[j].x as int, f[ci].y as int, f[ci].x as int) {
            let j = choose|j: int| 0 <= j < n && j != ci && #[trigger] in_direction(k, f[j].y as int, f[j].x as int, f[ci].y as int, f[ci].x as int);
            if j < n - 1 {
                assert(best_upto(f, ci, k, n - 1) is Some);
            }
        }
    }
}

/// With distinct ids, the first position of an entry's id is the entry's own.
proof fn lemma_first_pos_distinct(f: Seq<FocusEntry>, i: int)
    requires
        distinct_ids(f),
        0 <= i < f.len(),
    ensures
        first_pos(entry_ids(f), f[i].id) == i,
{
    let ids = entry_ids(f);
    assert(is_first_pos(ids, f[i].id, i));
    lemma_first_pos_unique(ids, f[i].id, i);
}

/// An arrow alone moves the focus, when it moves, to an entry in the
/// arrow's direction, and moves it whenever such an entry exists.
proof fn lemma_arrow_moves(f: Seq<FocusEntry>, i: int, k: NavKeys)
    requires
        distinct_ids(f),
        0 <= i < f.len(),
        !k.tab_next && !k.tab_prev,
        k.up || k.down || k.left || k.right,
    ensures
        ({
            let r = next_focus(f, i, k, None);
            &&& 0 <= r < f.len()
            &&& r != i ==> in_direction(k, f[r].y as int, f[r].x as int, f[i].y as int, f[i].x as int)
            &&& (exists|j: int| 0 <= j < f.len() && j != i && #[trigger] in_direction(k, f[j].y as int, f[j].x as int, f[i].y as int, f[i].x as int))
                ==> r != i
        }),
{
    let ids = entry_ids(f);
    assert(ids[i] == f[i].id);
    lemma_first_pos_distinct(f, i);
    lemma_best_upto_found(f, i, k, f.len() as int);
    match best_upto(f, i, k, f.len() as int) {
        Some((bi, bc)) => {
            lemma_first_pos_distinct(f, bi);
        },
        None => {},
    }
}

/// Arrow navigation moves in the arrow's direction: with only Up (Down,
/// Left, Right) pressed, a focus that moves goes to an entry on a row above
/// (a row below, a column to the left, a column to the right); and when
/// some entry lies that way, the focus does move.
pub proof fn law_arrows_move_toward(f: Seq<FocusEntry>, i: int)
    requires
        distinct_ids(f),
        0 <= i < f.len(),
    ensures
        ({
            let r = next_focus(f, i, arrow_keys(true, false, false, false), None);
            &&& 0 <= r < f.len()
            &&& r != i ==> f[r].y < f[i].y
            &&& (exists|j: int| 0 <= j < f.len() && #[trigger] f[j].y < f[i].y) ==> r != i
        }),
        ({
            let r = next_focus(f, i, arrow_keys(false, true, false, false), None);
            &&& 0 <= r < f.len()
            &&& r != i ==> f[r].y > f[i].y
            &&& (exists|j: int| 0 <= j < f.len() && #[trigger] f[j].y > f[i].y) ==> r != i
        }),
        ({
            let r = next_focus(f, i, arrow_keys(false, false, true, false), None);
            &&& 0 <= r < f.len()
            &&& r != i ==> f[r].x < f[i].x
            &&& (exists|j: int| 0 <= j < f.len() && #[trigger] f[j].x < f[i].x) ==> r != i
        }),
        ({
            let r = next_focus(f, i, arrow_keys(false, false, false, true), None);
            &&& 0 <= r < f.len()
            &&& r != i ==> f[r].x > f[i].x
            &&& (exists|j: int| 0 <= j < f.len() && #[trigger] f[j].x > f[i].x) ==> r != i
        }),
{
    let ku = arrow_keys(true, false, false, false);
    let kd = arrow_keys(false, true, false, false);
    let kl = arrow_keys(false, false, true, false);
    let kr = arrow_keys(false, false, false, true);
    lemma_arrow_moves(f, i, ku);
    lemma_arrow_moves(f, i, kd);
    lemma_arrow_moves(f, i, kl);
    lemma_arrow_moves(f, i, kr);
    if exists|j: int| 0 <= j < f.len() && #[trigger] f[j].y < f[i].y {
        let j = choose|j: int| 0 <= j < f.len() && #[trigger] f[j].y < f[i].y;
        assert(in_direction(ku, f[j].y as int, f[j].x as int, f[i].y as int, f[i].x as int));
    }
    if exists|j: int| 0 <= j < f.len() && #[trigger] f[j].y > f[i].y {
        let j = choose|j: int| 0 <= j < f.len() && #[trigger] f[j].y > f[i].y;
        assert(in_direction(kd, f[j].y as int, f[j].x as int, f[i].y as int, f[i].x as int));
    }
    if exists|j: int| 0 <= j < f.len() && #[trigger] f[j].x < f[i].x {
        let j = choose|j: int| 0 <= j < f.len() && #[trigger] f[j].x < f[i].x;
        assert(in_direction(kl, f[j].y as int, f[j].x as int, f[i].y as int, f[i].x as int));
    }
    if exists|j: int| 0 <= j < f.len() && #[trigger] f[j].x > f[i].x {
        let j = choose|j: int| 0 <= j < f.len() && #[trigger] f[j].x > f[i].x;
        assert(in_direction(kr, f[j].y as int, f[j].x as int, f[i].y as int, f[i].x as int));
    }
}

/// Tab moves the focus to the next entry, wrapping from the last to the
/// first, and BackTab to the previous one, wrapping from the first to the
/// last; a click on an entry (and no other key) focuses it.
pub proof fn law_tab_and_click(f: Seq<FocusEntry>, i: int, c: int)
    requires
        distinct_ids(f),
        0 <= i < f.len(),
        0 <= c < f.len(),
    ensures
        next_focus(f, i, tab_keys(true), None) == if i + 1 < f.len() { i + 1 } else { 0 },
        next_focus(f, i, tab_keys(false), None) == if i > 0 { i - 1 } else { f.len() - 1 },
        next_focus(f, i, arrow_keys(false, false, false, false), Some(f[c].id)) == c,
{
    let len = f.len() as int;
    if i + 1 < len {
        assert((i + 1) % len == i + 1) by (nonlinear_arith)
            requires
                0 <= i + 1 < len,
        ;
    } else {
        assert((i + 1) % len == 0) by (nonlinear_arith)
            requires
                i + 1 == len,
                len > 0,
        ;
    }
    lemma_wrap_back(i, len);
    lemma_first_pos_distinct(f, c);
}

// The interaction system.

/// The interaction a focus candidate gets: pressed when it has the focus and
/// was activated or clicked, focused when it has the focus, idle otherwise.
pub open spec fn interaction_of(id: NodeId, focused: NodeId, activate: bool, clicked: Option<NodeId>) -> Interaction {
    if id == focused {
        if activate || clicked == Some(id) {
            Interaction::Pressed
        } else {
            Interaction::Focused
        }
    } else {
        Interaction::Idle
    }
}

/// The id that has the focus after this frame.
pub open spec fn focused_after(v: CtxView, index: int, i: InputView) -> NodeId {
    let f = focus_order(v);
    entry_ids(f)[next_focus(f, index, nav_keys(i), click_target(v, f, i.mouse))]
}

/// Whether this frame's keys can be applied to the text field that gets the focus.
pub open spec fn text_edit_ok(v: CtxView, focused: NodeId, keys: Seq<KeyCode>) -> bool {
    is_live(v, focused as int) ==> match v.slots[focused as int].unwrap().content {
        Content::TextInput { value, cursor, max_len, placeholder } => edits_ok(
            (value@, cursor as nat),
            max_len as nat,
            keys,
        ),
        _ => true,
    }
}

/// Node `n` is node `o` with interaction `inter`, and, when `o` is the
/// focused text field, its text and cursor edited by `keys`.
pub open spec fn node_after(o: NodeView, n: NodeView, inter: Interaction, is_focused: bool, keys: Seq<KeyCode>) -> bool {
    &&& n == NodeView { interaction: inter, content: n.content, ..o }
    &&& match o.content {
        Content::TextInput { value, cursor, max_len, placeholder } => if is_focused {
            let e = edit_keys((value@, cursor as nat), max_len as nat, keys);
            n.content matches Content::TextInput { value: v2, cursor: c2, max_len: m2, placeholder: p2 }
                && v2@ == e.0 && c2 == e.1 && m2 == max_len && p2 == placeholder
        } else {
            n.content == o.content
        },
        _ => n.content == o.content,
    }
}

fn set_interactions(ctx: &mut Context, ids: &Vec<NodeId>, focused: NodeId, activate: bool, clicked: Option<NodeId>)
    requires
        old(ctx).wf(),
    ensures
        final(ctx).wf(),
        final(ctx)@.slots.len() == old(ctx)@.slots.len(),
        final(ctx)@.free == old(ctx)@.free,
        final(ctx)@.next_id == old(ctx)@.next_id,
        final(ctx)@.root == old(ctx)@.root,
        final(ctx)@.tick == old(ctx)@.tick,
        forall|k: int| 0 <= k < old(ctx)@.slots.len() ==> #[trigger] final(ctx)@.slots[k] == if is_live(old(ctx)@, k) && ids@.contains(k as NodeId) {
            Some(NodeView { interaction: interaction_of(k as NodeId, focused, activate, clicked), ..old(ctx)@.slots[k].unwrap() })
        } else {
            old(ctx)@.slots[k]
        },
{
    let ghost v0 = ctx@;
    proof {
        ctx.lemma_slots_fit();
    }
    let n = ids.len();
    let mut i: usize = 0;
    while i < n
        invariant
            n == ids@.len(),
            0 <= i <= n,
            ctx.wf(),
            ctx@.slots.len() == v0.slots.len(),
            ctx@.free == v0.free,
            ctx@.next_id == v0.next_id,
            ctx@.root == v0.root,
            ctx@.tick == v0.tick,
            v0.slots.len() <= u32::MAX,
            forall|k: int| 0 <= k < v0.slots.len() ==> #[trigger] ctx@.slots[k] == if is_live(v0, k) && ids@.take(i as int).contains(k as NodeId) {
                Some(NodeView { interaction: interaction_of(k as NodeId, focused, activate, clicked), ..v0.slots[k].unwrap() })
            } else {
                v0.slots[k]
            },
        decreases n - i,
    {
        let e = ids[i];
        let inter = if e == focused {
            if activate || clicked == Some(e) {
                Interaction::Pressed
            } else {
                Interaction::Focused
            }
        } else {
            Interaction::Idle
        };
        proof {
            assert(ids@.take(i + 1) =~= ids@.take(i as int).push(e));
        }
        match ctx.node_mut(e) {
            Some(node) => {
                node.interaction = inter;
            },
            None => {},
        }
        proof {
            assert forall|k: int| 0 <= k < v0.slots.len() implies #[trigger] ctx@.slots[k] == if is_live(v0, k) && ids@.take(i + 1).contains(k as NodeId) {
                Some(NodeView { interaction: interaction_of(k as NodeId, focused, activate, clicked), ..v0.slots[k].unwrap() })
            } else {
                v0.slots[k]
            } by {
                if k == e as int {
                    assert(ids@.take(i + 1)[i as int] == e);
                    assert(ids@.take(i + 1).contains(k as NodeId));
                } else {
                    assert(ids@.take(i + 1).contains(k as NodeId) == ids@.take(i as int).contains(k as NodeId)) by {
                        if ids@.take(i + 1).contains(k as NodeId) {
                            let j = choose|j: int| 0 <= j < i + 1 && #[trigger] ids@.take(i + 1)[j] == k as NodeId;
                            assert(j < i);
                            assert(ids@.take(i as int)[j] == k as NodeId);
                        }
                    }
                }
            }
        }
        i = i + 1;
    }
    proof {
        assert(ids@.take(n as int) =~= ids@);
    }
}

fn edit_focused_text(ctx: &mut Context, focused: NodeId, keys: &[KeyCode])
    requires
        old(ctx).wf(),
        text_edit_ok(old(ctx)@, focused, keys@),
    ensures
        final(ctx).wf(),
        final(ctx)@.slots.len() == old(ctx)@.slots.len(),
        final(ctx)@.free == old(ctx)@.free,
        final(ctx)@.next_id == old(ctx)@.next_id,
        final(ctx)@.root == old(ctx)@.root,
        final(ctx)@.tick == old(ctx)@.tick,
        forall|k: int| 0 <= k < old(ctx)@.slots.len() && k != focused as int ==> #[trigger] final(ctx)@.slots[k] == old(ctx)@.slots[k],
        is_live(old(ctx)@, focused as int) ==> (final(ctx)@.slots[focused as int] matches Some(n) && node_after(
            old(ctx)@.slots[focused as int].unwrap(),
            n,
            old(ctx)@.slots[focused as int].unwrap().interaction,
            true,
            keys@,
        )),
        !is_live(old(ctx)@, focused as int) ==> final(ctx)@ == old(ctx)@,
{
    match ctx.node_mut(focused) {
        Some(node) => {
            let mut content = Content::Container;
            std::mem::swap(&mut node.content, &mut content);
            match content {
                Content::TextInput { value, cursor, max_len, placeholder } => {
                    let mut chars = str_chars(value.as_str());
                    let mut cur = cursor;
                    edit_text(&mut chars, &mut cur, max_len, keys);
                    node.content = Content::TextInput {
                        value: chars_to_string(&chars),
                        cursor: cur,
                        max_len,
                        placeholder,
                    };
                },
                other => {
                    node.content = other;
                },
            }
        },
        None => {},
    }
}

/// Slot `n` after a frame's interaction update: candidates take their
/// interaction, and the focused node its text edits.
pub open spec fn slot_after(v: CtxView, w: CtxView, n: int, ids: Seq<NodeId>, focused: NodeId, activate: bool, clicked: Option<NodeId>, keys: Seq<KeyCode>) -> bool {
    if is_live(v, n) && ids.contains(n as NodeId) {
        w.slots[n] matches Some(nv) && node_after(
            v.slots[n].unwrap(),
            nv,
            interaction_of(n as NodeId, focused, activate, clicked),
            n == focused as int,
            keys,
        )
    } else if n == focused as int && is_live(v, n) {
        w.slots[n] matches Some(nv) && node_after(v.slots[n].unwrap(), nv, v.slots[n].unwrap().interaction, true, keys)
    } else {
        w.slots[n] == v.slots[n]
    }
}

proof fn lemma_frame_result(
    v: CtxView,
    v1: CtxView,
    v2: CtxView,
    ids: Seq<NodeId>,
    focused: NodeId,
    activate: bool,
    clicked: Option<NodeId>,
    keys: Seq<KeyCode>,
)
    requires
        v1.slots.len() == v.slots.len(),
        v2.slots.len() == v.slots.len(),
        forall|k: int| 0 <= k < v.slots.len() ==> #[trigger] v1.slots[k] == if is_live(v, k) && ids.contains(k as NodeId) {
            Some(NodeView { interaction: interaction_of(k as NodeId, focused, activate, clicked), ..v.slots[k].unwrap() })
        } else {
            v.slots[k]
        },
        forall|k: int| 0 <= k < v1.slots.len() && k != focused as int ==> #[trigger] v2.slots[k] == v1.slots[k],
        is_live(v1, focused as int) ==> (v2.slots[focused as int] matches Some(n) && node_after(
            v1.slots[focused as int].unwrap(),
            n,
            v1.slots[focused as int].unwrap().interaction,
            true,
            keys,
        )),
        !is_live(v1, focused as int) ==> v2 == v1,
    ensures
        forall|n: int| 0 <= n < v.slots.len() ==> #[trigger] slot_after(v, v2, n, ids, focused, activate, clicked, keys),
{
    assert forall|n: int| 0 <= n < v.slots.len() implies #[trigger] slot_after(v, v2, n, ids, focused, activate, clicked, keys) by {
        let a = v1.slots[n];
        if n != focused as int {
            assert(v2.slots[n] == a);
        } else if is_live(v, n) {
            let o = v.slots[n].unwrap();
            assert(is_live(v1, n));
            let m = v1.slots[n].unwrap();
            match o.content {
                Content::TextInput { value, cursor, max_len, placeholder } => {
                    assert(m.content == o.content);
                },
                _ => {
                    assert(m.content == o.content);
                },
            }
        } else {
            assert(!is_live(v1, n));
        }
    }
}

/// A text field's length and cursor after one key (see `edit_step`).
pub open spec fn len_step(s: (nat, nat), max_len: nat, key: KeyCode) -> (nat, nat) {
    let (l, c) = s;
    match key {
        KeyCode::Char(ch) => if l < max_len {
            (l + 1, c + 1)
        } else {
            s
        },
        KeyCode::Backspace => if c > 0 {
            ((l - 1) as nat, (c - 1) as nat)
        } else {
            s
        },
        KeyCode::Left => if c > 0 {
            (l, (c - 1) as nat)
        } else {
            s
        },
        KeyCode::Right => if c < l {
            (l, c + 1)
        } else {
            s
        },
        _ => s,
    }
}

/// Whether one key can be applied, from the length and cursor alone (see `edit_step_ok`).
pub open spec fn len_step_ok(s: (nat, nat), max_len: nat, key: KeyCode) -> bool {
    match key {
        KeyCode::Char(_) => s.0 < max_len ==> s.1 < usize::MAX,
        KeyCode::Backspace => s.1 > 0 ==> s.1 - 1 < s.0,
        _ => true,
    }
}

/// A text field's length and cursor after each key of `keys` in turn.
pub open spec fn len_keys(s: (nat, nat), max_len: nat, keys: Seq<KeyCode>) -> (nat, nat)
    decreases keys.len(),
{
    if keys.len() == 0 {
        s
    } else {
        len_step(len_keys(s, max_len, keys.drop_last()), max_len, keys.last())
    }
}

/// Whether each key of `keys` can be applied in turn, from the length and cursor alone.
pub open spec fn lens_ok(s: (nat, nat), max_len: nat, keys: Seq<KeyCode>) -> bool
    decreases keys.len(),
{
    keys.len() == 0 || (lens_ok(s, max_len, keys.drop_last()) && len_step_ok(
        len_keys(s, max_len, keys.drop_last()),
        max_len,
        keys.last(),
    ))
}

/// Whether keys can be applied to a text field depends on its length and
/// cursor only, which the keys move as `len_keys` says.
pub proof fn lemma_edits_by_length(s: (Seq<char>, nat), max_len: nat, keys: Seq<KeyCode>)
    ensures
        edits_ok(s, max_len, keys) == lens_ok((s.0.len(), s.1), max_len, keys),
        edits_ok(s, max_len, keys) ==> {
            let e = edit_keys(s, max_len, keys);
            (e.0.len(), e.1) == len_keys((s.0.len(), s.1), max_len, keys)
        },
    decreases keys.len(),
{
    if keys.len() > 0 {
        lemma_edits_by_length(s, max_len, keys.drop_last());
    }
}

/// Whether `keys` can be applied to a text field of `len` characters with
/// the cursor at `cursor` (see `lens_ok`).
fn edits_fit(len: usize, cursor: usize, max_len: usize, keys: &[KeyCode]) -> (r: bool)
    ensures
        r == lens_ok((len as nat, cursor as nat), max_len as nat, keys@),
{
    let ghost s0 = (len as nat, cursor as nat);
    let n = keys.len();
    let mut l = len;
    let mut c = cursor;
    let mut i: usize = 0;
    while i < n
        invariant
            n == keys@.len(),
            s0 == (len as nat, cursor as nat),
            0 <= i <= n,
            lens_ok(s0, max_len as nat, keys@.take(i as int)),
            (l as nat, c as nat) == len_keys(s0, max_len as nat, keys@.take(i as int)),
        decreases n - i,
    {
        proof {
            assert(keys@.take(i + 1).drop_last() =~= keys@.take(i as int));
            assert(keys@.take(i + 1).last() == keys@[i as int]);
        }
        match keys[i] {
            KeyCode::Char(_) => {
                if l < max_len {
                    if c == usize::MAX {
                        proof {
                            assert(!len_step_ok(len_keys(s0, max_len as nat, keys@.take(i as int)), max_len as nat, keys@[i as int]));
                            assert(!lens_ok(s0, max_len as nat, keys@.take(i + 1)));
                            lemma_lens_ok_prefix(s0, max_len as nat, keys@, i + 1);
                        }
                        return false;
                    }
                    l = l + 1;
                    c = c + 1;
                }
            },
            KeyCode::Backspace => {
                if c > 0 {
                    if c - 1 >= l {
                        proof {
                            assert(!len_step_ok(len_keys(s0, max_len as nat, keys@.take(i as int)), max_len as nat, keys@[i as int]));
                            assert(!lens_ok(s0, max_len as nat, keys@.take(i + 1)));
                            lemma_lens_ok_prefix(s0, max_len as nat, keys@, i + 1);
                        }
                        return false;
                    }
                    l = l - 1;
                    c = c - 1;
                }
            },
            KeyCode::Left => {
                if c > 0 {
                    c = c - 1;
                }
            },
            KeyCode::Right => {
                if c < l {
                    c = c + 1;
                }
            },
            _ => {},
        }
        i = i + 1;
    }
    proof {
        assert(keys@.take(n as int) =~= keys@);
    }
    true
}

/// Keys that cannot be applied up to some point cannot be applied in full.
proof fn lemma_lens_ok_prefix(s: (nat, nat), max_len: nat, keys: Seq<KeyCode>, m: int)
    requires
        0 <= m <= keys.len(),
        !lens_ok(s, max_len, keys.take(m)),
    ensures
        !lens_ok(s, max_len, keys),
    decreases keys.len() - m,
{
    if m < keys.len() {
        assert(keys.take(m + 1).drop_last() =~= keys.take(m));
        lemma_lens_ok_prefix(s, max_len, keys, m + 1);
    } else {
        assert(keys.take(m) =~= keys);
    }
}

/// Whether `update_interactions` can run on `ctx` with `input` and `ui`:
/// with a left click, the rectangles of the focus candidates fit in 16-bit
/// coordinates; and this frame's keys can be applied to the text field
/// that gets the focus.
pub fn interactions_fit(ctx: &Context, input: Option<&Input>, ui: &UiState) -> (r: bool)
    requires
        ctx.wf(),
    ensures
        r == (input matches Some(i) ==> {
            &&& has_left_press(i@.mouse) ==> rects_fit(ctx@, focus_order(ctx@))
            &&& focus_order(ctx@).len() > 0 ==> text_edit_ok(
                ctx@,
                focused_after(ctx@, ui.focus_index as int, i@),
                i@.pressed,
            )
        }),
{
    let ghost v = ctx@;
    let inp = match input {
        Some(i) => i,
        None => {
            return true;
        },
    };
    let cands = collect_candidates(ctx);
    let focusable = sort_by_key(cands);
    let ev = inp.mouse_events();
    if left_pressed(ev) && !entries_fit(ctx, &focusable) {
        return false;
    }
    if focusable.len() == 0 {
        return true;
    }
    let keys = NavKeys {
        tab_next: inp.just_pressed(KeyCode::Tab),
        tab_prev: inp.just_pressed(KeyCode::BackTab),
        up: inp.just_pressed(KeyCode::Up),
        down: inp.just_pressed(KeyCode::Down),
        left: inp.just_pressed(KeyCode::Left),
        right: inp.just_pressed(KeyCode::Right),
        activate: inp.just_pressed(KeyCode::Enter) || inp.just_pressed(KeyCode::Char(' ')),
    };
    let clicked = clicked_entry(ctx, &focusable, ev);
    let ids = entry_id_list(&focusable);
    let idx = navigate(&focusable, &ids, ui.focus_index, keys, clicked);
    let focused = ids[idx];
    proof {
        assert(keys == nav_keys(inp@));
    }
    let pressed = inp.pressed_keys();
    match ctx.node(focused) {
        None => true,
        Some(node) => match &node.content {
            Content::TextInput { value, cursor, max_len, .. } => {
                let chars = str_chars(value.as_str());
                let ok = edits_fit(chars.len(), *cursor, *max_len, pressed);
                proof {
                    lemma_edits_by_length((value@, *cursor as nat), *max_len as nat, pressed@);
                }
                ok
            },
            _ => true,
        },
    }
}

/// Whether a left button press is among `ev`.
fn left_pressed(ev: &[MouseEvent]) -> (r: bool)
    ensures
        r == has_left_press(ev@),
{
    let n = ev.len();
    let mut i: usize = 0;
    while i < n
        invariant
            n == ev@.len(),
            0 <= i <= n,
            forall|k: int| 0 <= k < i ==> ev@[k].kind != MouseKind::Press(MouseButton::Left),
        decreases n - i,
    {
        match ev[i].kind {
            MouseKind::Press(MouseButton::Left) => {
                proof {
                    assert(ev@[i as int].kind == MouseKind::Press(MouseButton::Left));
                }
                return true;
            },
            _ => {},
        }
        i = i + 1;
    }
    false
}

/// Whether the rectangles of the live nodes of `f` fit (see `rects_fit`).
fn entries_fit(ctx: &Context, f: &Vec<FocusEntry>) -> (r: bool)
    ensures
        r == rects_fit(ctx@, f@),
{
    let n = f.len();
    let mut i: usize = 0;
    while i < n
        invariant
            n == f@.len(),
            0 <= i <= n,
            forall|k: int| 0 <= k < i && is_live(ctx@, #[trigger] f@[k].id as int) ==> {
                let r = ctx@.slots[f@[k].id as int].unwrap().rect;
                r.x + r.width <= u16::MAX && r.y + r.height <= u16::MAX
            },
        decreases n - i,
    {
        match ctx.node(f[i].id) {
            Some(node) => {
                let r = node.rect;
                if (r.x as u32) + (r.width as u32) > 0xffff || (r.y as u32) + (r.height as u32) > 0xffff {
                    proof {
                        assert(is_live(ctx@, f@[i as int].id as int));
                    }
                    return false;
                }
            },
            None => {},
        }
        i = i + 1;
    }
    true
}

/// Updates focus and interaction states from this frame's input.
///
/// The focusable visible nodes, by row then column, form the focus list;
/// the focus moves by click, Tab/BackTab and arrows (see `next_focus`); the
/// focused node is pressed when activated by Enter, Space or a click, and
/// every other candidate is idle; a focused text field takes this frame's
/// keys. With no candidate, or no input store, nothing changes.
pub fn update_interactions(ctx: &mut Context, input: Option<&Input>, ui: &mut UiState)
    requires
        old(ctx).wf(),
        input matches Some(i) ==> (has_left_press(i@.mouse) ==> rects_fit(old(ctx)@, focus_order(old(ctx)@))),
        input matches Some(i) ==> (focus_order(old(ctx)@).len() > 0 ==> text_edit_ok(
            old(ctx)@,
            focused_after(old(ctx)@, old(ui).focus_index as int, i@),
            i@.pressed,
        )),
    ensures
        final(ctx).wf(),
        focus_order(old(ctx)@).len() == 0 || input is None ==> final(ctx)@ == old(ctx)@ && *final(ui) == *old(ui),
        input matches Some(i) ==> (focus_order(old(ctx)@).len() > 0 ==> {
            let v = old(ctx)@;
            let f = focus_order(v);
            let k = nav_keys(i@);
            let clicked = click_target(v, f, i@.mouse);
            let idx = next_focus(f, old(ui).focus_index as int, k, clicked);
            let focused = entry_ids(f)[idx];
            &&& final(ui).focus_list@ == entry_ids(f)
            &&& final(ui).focus_index == idx
            &&& final(ctx)@.slots.len() == v.slots.len()
            &&& final(ctx)@.free == v.free
            &&& final(ctx)@.next_id == v.next_id
            &&& final(ctx)@.root == v.root
            &&& final(ctx)@.tick == v.tick
            &&& forall|n: int| 0 <= n < v.slots.len() ==> #[trigger] slot_after(v, final(ctx)@, n, entry_ids(f), focused, k.activate, clicked, i@.pressed)
        }),
{
    let cands = collect_candidates(ctx);
    let focusable = sort_by_key(cands);
    if focusable.len() == 0 {
        return ;
    }
    let inp = match input {
        Some(i) => i,
        None => {
            return ;
        },
    };
    let keys = NavKeys {
        tab_next: inp.just_pressed(KeyCode::Tab),
        tab_prev: inp.just_pressed(KeyCode::BackTab),
        up: inp.just_pressed(KeyCode::Up),
        down: inp.just_pressed(KeyCode::Down),
        left: inp.just_pressed(KeyCode::Left),
        right: inp.just_pressed(KeyCode::Right),
        activate: inp.just_pressed(KeyCode::Enter) || inp.just_pressed(KeyCode::Char(' ')),
    };
    let clicked = clicked_entry(ctx, &focusable, inp.mouse_events());
    let ids = entry_id_list(&focusable);
    let idx = navigate(&focusable, &ids, ui.focus_index, keys, clicked);
    let focused = ids[idx];
    let ghost v = ctx@;
    set_interactions(ctx, &ids, focused, keys.activate, clicked);
    let ghost v1 = ctx@;
    proof {
        assert(keys == nav_keys(inp@));
        assert(is_live(v1, focused as int) == is_live(v, focused as int));
        if is_live(v, focused as int) {
            assert(v1.slots[focused as int].unwrap().content == v.slots[focused as int].unwrap().content);
        }
    }
    edit_focused_text(ctx, focused, inp.pressed_keys());
    proof {
        lemma_frame_result(v, v1, ctx@, ids@, focused, keys.activate, clicked, inp@.pressed);
    }
    let mut list: Vec<NodeId> = ids;
    std::mem::swap(&mut ui.focus_list, &mut list);
    ui.focus_index = idx;
}

} // verus!
