//! Drawing a whole frame: the background, then every visible node in
//! stacking order, each clipped to its container and panel ancestors.
use vstd::prelude::*;

use crate::base::context::{Context, CtxView, is_live, lemma_live_prefix_has, live_ids};
use crate::base::node::{Content, Node, NodeId, NodeView, ProgressStyle};
use crate::term::{Term, TermView};
use crate::ui::clip::{checked_clip, clip_walk, compute_clip, fits, lemma_walk_fuel, opt_ints, walk_ends, walk_fits};
use crate::ui::order::{Keyed, RenderEntry, law_stable_sort_ascending, lemma_stable_sort_from, lemma_stable_sort_len, sort_by_key, stable_sort};
use crate::ui::render::{
    BarFill,
    Draw,
    button_draws,
    fill_ok,
    lemma_run_concat,
    lemma_run_empty,
    lemma_run_push,
    panel_draws,
    progress_draws,
    progress_span,
    render_animated_text,
    render_button,
    render_panel,
    render_progress,
    render_separator,
    render_spinner,
    render_text,
    render_text_input,
    rows_draws,
    run_draws,
    separator_draws,
    spaces,
    spec_progress_span,
    spinner_draws,
    text_draws,
    text_input_draws,
    typewriter_draws,
};
use crate::ui::theme::Theme;

verus! {

/// The animation state of a node at this frame, worked out from its clock.
pub struct Motion {
    /// Spinner frames advanced so far.
    pub ticks: usize,
    /// Typewriter characters out so far.
    pub visible: usize,
    /// Whether the typewriter cursor is shown.
    pub cursor_on: bool,
    /// How a progress bar is filled.
    pub bar: BarFill,
}

/// The text of an optional string.
pub open spec fn opt_view(s: Option<String>) -> Option<Seq<char>> {
    match s {
        Some(t) => Some(t@),
        None => None,
    }
}

/// The operations that draw node `n` (in its rectangle) with motion `m`.
pub open spec fn node_draws(n: NodeView, m: Motion, t: Theme) -> Seq<Draw> {
    let r = n.rect;
    match n.content {
        Content::Container => seq![],
        Content::Text(s) => text_draws(r, s@, n.align, n.style, t),
        Content::Button(l) => button_draws(r, l@, n.interaction, t),
        Content::Panel { title, border, shadow } => panel_draws(r, opt_view(title), border, shadow, n.style, t),
        Content::Separator { label } => separator_draws(r, opt_view(label), t),
        Content::Progress { value, style, fg_fill, fg_empty, gradient_end, show_label } => progress_draws(
            r,
            style,
            fg_fill,
            fg_empty,
            show_label,
            m.bar,
            n.style,
            t,
        ),
        Content::Spinner { style, elapsed, speed, label } => spinner_draws(r, style, m.ticks as nat, opt_view(label), n.style, t),
        Content::TextInput { value, cursor, max_len, placeholder } => text_input_draws(r, value@, placeholder@, n.interaction, t),
        Content::AnimatedText { text, speed, elapsed } => typewriter_draws(r, text@, m.visible as nat, m.cursor_on, n.style, t),
    }
}

/// Whether node `n` can be drawn with motion `m` within 16-bit coordinates:
/// the rows of a button, panel (and its shadow) or text field fit, and a
/// smooth bar has its colors.
pub open spec fn node_fits(n: NodeView, m: Motion) -> bool {
    let r = n.rect;
    match n.content {
        Content::Button(_) => r.y + r.height <= u16::MAX,
        Content::Panel { title, border, shadow } => r.y + r.height <= u16::MAX && (shadow ==> r.x + r.width
            <= u16::MAX && r.x + 1 <= u16::MAX && r.y + r.height + 1 <= u16::MAX),
        Content::TextInput { .. } => (r.height == 2 ==> r.y + 1 <= u16::MAX) && (r.height >= 3 ==> r.y + r.height
            <= u16::MAX),
        Content::Progress { value, style, fg_fill, fg_empty, gradient_end, show_label } => fill_ok(
            style,
            spec_progress_span(style, r.width as nat, show_label),
            m.bar,
        ),
        _ => true,
    }
}

/// Draws one node with motion `motion`.
pub fn render_node(term: &mut Term, node: &Node, motion: &Motion, theme: &Theme)
    requires
        old(term).wf(),
        node@.rect.height >= 1,
        node_fits(node@, *motion),
    ensures
        final(term).wf(),
        final(term)@ == run_draws(old(term)@, node_draws(node@, *motion, *theme)),
{
    let r = node.rect;
    match &node.content {
        Content::Container => {
            proof {
                lemma_run_empty(term@);
            }
        },
        Content::Text(text) => {
            render_text(term, r, text.as_str(), node.align, &node.style, theme);
        },
        Content::Button(label) => {
            render_button(term, r, label.as_str(), node.interaction, theme);
        },
        Content::Panel { title, border, shadow } => {
            render_panel(term, r, title.as_ref(), *border, *shadow, &node.style, theme);
        },
        Content::Separator { label } => {
            render_separator(term, r, label.as_ref(), theme);
        },
        Content::Progress { value, style, fg_fill, fg_empty, gradient_end, show_label } => {
            render_progress(term, r, *style, *fg_fill, *fg_empty, *show_label, &motion.bar, &node.style, theme);
        },
        Content::Spinner { style, elapsed, speed, label } => {
            render_spinner(term, r, *style, motion.ticks, label.as_ref(), &node.style, theme);
        },
        Content::TextInput { value, cursor, max_len, placeholder } => {
            render_text_input(term, r, value.as_str(), placeholder.as_str(), node.interaction, theme);
        },
        Content::AnimatedText { text, speed, elapsed } => {
            render_animated_text(term, r, text.as_str(), motion.visible, motion.cursor_on, &node.style, theme);
        },
    }
}

// The frame.

/// The visible live nodes among `ids`, in order, with their stacking order.
pub open spec fn render_candidates(v: CtxView, ids: Seq<NodeId>) -> Seq<RenderEntry>
    decreases ids.len(),
{
    if ids.len() == 0 {
        Seq::empty()
    } else {
        let rest = render_candidates(v, ids.drop_last());
        let k = ids.last();
        if is_live(v, k as int) && v.slots[k as int].unwrap().visible {
            let n = v.slots[k as int].unwrap();
            rest.push(RenderEntry { id: n.id, z: n.z_index })
        } else {
            rest
        }
    }
}

/// The drawing order: visible nodes by stacking order, lowest first, ties in slot order.
pub open spec fn render_order(v: CtxView) -> Seq<RenderEntry> {
    stable_sort(render_candidates(v, live_ids(v)))
}

/// The clip rectangle of node `id`.
pub open spec fn clip_of(v: CtxView, id: int) -> Option<(int, int, int, int)> {
    clip_walk(v, id, None, choose|d: nat| walk_ends(v, id, d))
}

/// Whether node `id` is drawn: it is live and its rectangle is not empty.
pub open spec fn is_drawn(v: CtxView, id: int) -> bool {
    is_live(v, id) && v.slots[id].unwrap().rect.width > 0 && v.slots[id].unwrap().rect.height > 0
}

/// The operations that draw entry `e`: set its clip, draw its node, lift the clip.
pub open spec fn entry_draws(v: CtxView, e: RenderEntry, ms: Seq<Motion>, t: Theme) -> Seq<Draw> {
    if is_drawn(v, e.id as int) {
        (match clip_of(v, e.id as int) {
            Some(c) => seq![Draw::Clip(Some((c.0 as u16, c.1 as u16, c.2 as u16, c.3 as u16)))],
            None => seq![],
        }) + node_draws(v.slots[e.id as int].unwrap(), ms[e.id as int], t) + seq![Draw::Clip(None)]
    } else {
        seq![]
    }
}

/// Whether entry `e` can be drawn: its ancestry ends, its clip stays within
/// 16-bit coordinates, it has a motion, and its node fits.
pub open spec fn entry_ok(v: CtxView, e: RenderEntry, ms: Seq<Motion>) -> bool {
    is_drawn(v, e.id as int) ==> {
        &&& e.id < ms.len()
        &&& exists|d: nat| walk_ends(v, e.id as int, d) && walk_fits(v, e.id as int, None, d)
        &&& (clip_of(v, e.id as int) matches Some(c) ==> fits(c))
        &&& node_fits(v.slots[e.id as int].unwrap(), ms[e.id as int])
    }
}

/// Whether node `n` fits with motion `m` (see `node_fits`).
fn node_fits_check(n: &Node, m: &Motion) -> (r: bool)
    ensures
        r == node_fits(n@, *m),
{
    let r = n.rect;
    let bottom = (r.y as u32) + (r.height as u32);
    match &n.content {
        Content::Button(_) => bottom <= 0xffff,
        Content::Panel { shadow, .. } => bottom <= 0xffff && (!*shadow || ((r.x as u32) + (r.width as u32) <= 0xffff
            && (r.x as u32) + 1 <= 0xffff && bottom + 1 <= 0xffff)),
        Content::TextInput { .. } => (r.height != 2 || (r.y as u32) + 1 <= 0xffff) && (r.height < 3 || bottom
            <= 0xffff),
        Content::Progress { style, show_label, .. } => match style {
            ProgressStyle::Smooth => {
                let span = progress_span(*style, r.width, *show_label);
                let k = if m.bar.filled <= span {
                    m.bar.filled
                } else {
                    span
                };
                m.bar.colors.len() >= k
            },
            _ => true,
        },
        _ => true,
    }
}

/// Whether node `id` can be drawn with motions `ms` when its ancestry is
/// followed for at most `limit` steps: unless it is not drawn, it has a
/// motion, the walk up ends and stays within 16-bit coordinates, its clip
/// fits, and the node fits.
pub open spec fn drawable(v: CtxView, id: int, ms: Seq<Motion>, limit: nat) -> bool {
    is_drawn(v, id) ==> {
        &&& id < ms.len()
        &&& walk_ends(v, id, limit)
        &&& walk_fits(v, id, None, limit)
        &&& (clip_walk(v, id, None, limit) matches Some(c) ==> fits(c))
        &&& node_fits(v.slots[id].unwrap(), ms[id])
    }
}

/// Every render candidate comes from a live, visible slot among `ids`, and
/// names the id recorded in that slot's node.
proof fn lemma_candidate_from(v: CtxView, ids: Seq<NodeId>, j: int)
    requires
        0 <= j < render_candidates(v, ids).len(),
    ensures
        exists|i: int|
            0 <= i < ids.len() && is_live(v, ids[i] as int) && v.slots[ids[i] as int].unwrap().visible
                && render_candidates(v, ids)[j].id == v.slots[ids[i] as int].unwrap().id,
    decreases ids.len(),
{
    let rest = render_candidates(v, ids.drop_last());
    if j < rest.len() {
        lemma_candidate_from(v, ids.drop_last(), j);
        let i = choose|i: int|
            0 <= i < ids.drop_last().len() && is_live(v, ids.drop_last()[i] as int) && v.slots[ids.drop_last()[i] as int].unwrap().visible
                && rest[j].id == v.slots[ids.drop_last()[i] as int].unwrap().id;
        assert(ids[i] == ids.drop_last()[i]);
    } else {
        assert(ids[ids.len() - 1] == ids.last());
    }
}

/// Whether `render_ui` can draw `ctx` with `motions`: for every visible
/// live node, the node its recorded id names is drawable with ancestry
/// followed for as many steps as there are live nodes (enough for any
/// ancestry without a cycle); then every entry of the drawing order is
/// ready (see `entry_ok`).
pub open spec fn frame_ready(v: CtxView, ms: Seq<Motion>, limit: nat) -> bool {
    forall|k: int| #![trigger v.slots[k]] is_live(v, k) && v.slots[k].unwrap().visible ==> drawable(v, v.slots[k].unwrap().id as int, ms, limit)
}

/// Whether `render_ui` can draw `ctx` with `motions` (see `frame_ready`).
pub fn frame_fits(ctx: &Context, motions: &Vec<Motion>) -> (r: bool)
    requires
        ctx.wf(),
    ensures
        r == frame_ready(ctx@, motions@, live_ids(ctx@).len()),
        r ==> forall|k: int| 0 <= k < render_order(ctx@).len() ==> entry_ok(ctx@, #[trigger] render_order(ctx@)[k], motions@),
{
    let ghost v = ctx@;
    let ids = ctx.live_ids();
    let limit = ids.len();
    let mut j: usize = 0;
    while j < ids.len()
        invariant
            v == ctx@,
            ctx.wf(),
            ids@ == live_ids(v),
            limit == ids@.len(),
            0 <= j <= ids@.len(),
            forall|jj: int| #![trigger ids@[jj]] 0 <= jj < j && is_live(v, ids@[jj] as int) && v.slots[ids@[jj] as int].unwrap().visible
                ==> drawable(v, v.slots[ids@[jj] as int].unwrap().id as int, motions@, limit as nat),
        decreases ids@.len() - j,
    {
        let k = ids[j];
        match ctx.node(k) {
            None => {},
            Some(owner) => {
                if owner.visible {
                    let id = owner.id;
                    let ok = node_drawable(ctx, id, motions, limit);
                    if !ok {
                        proof {
                            assert(v.slots[k as int] == Some(owner@));
                        }
                        return false;
                    }
                }
            },
        }
        j = j + 1;
    }
    proof {
        ctx.lemma_slots_fit();
        assert forall|k: int| #![trigger v.slots[k]] is_live(v, k) && v.slots[k].unwrap().visible implies drawable(
            v,
            v.slots[k].unwrap().id as int,
            motions@,
            limit as nat,
        ) by {
            lemma_live_prefix_has(v.slots, v.slots.len() as int, k);
            let jj = choose|jj: int| 0 <= jj < ids@.len() && ids@[jj] == k as NodeId;
            assert(ids@[jj] as int == k);
        }
        assert forall|q: int| 0 <= q < render_order(v).len() implies entry_ok(v, #[trigger] render_order(v)[q], motions@) by {
            let cands = render_candidates(v, live_ids(v));
            let e = render_order(v)[q];
            lemma_stable_sort_len(cands);
            lemma_stable_sort_from(cands, q);
            let c = choose|c: int| 0 <= c < cands.len() && cands[c] == e;
            lemma_candidate_from(v, live_ids(v), c);
            let i = choose|i: int|
                0 <= i < live_ids(v).len() && is_live(v, live_ids(v)[i] as int) && v.slots[live_ids(v)[i] as int].unwrap().visible
                    && cands[c].id == v.slots[live_ids(v)[i] as int].unwrap().id;
            let k = live_ids(v)[i] as int;
            assert(v.slots[k].unwrap().visible);
            assert(drawable(v, e.id as int, motions@, limit as nat));
            if is_drawn(v, e.id as int) {
                let d0 = choose|d: nat| walk_ends(v, e.id as int, d);
                assert(walk_ends(v, e.id as int, limit as nat));
                if d0 <= limit {
                    lemma_walk_fuel(v, e.id as int, None, d0, limit as nat);
                } else {
                    lemma_walk_fuel(v, e.id as int, None, limit as nat, d0);
                }
            }
        }
    }
    true
}

/// Whether node `id` is drawable with `motions` (see `drawable`).
fn node_drawable(ctx: &Context, id: NodeId, motions: &Vec<Motion>, limit: usize) -> (r: bool)
    requires
        ctx.wf(),
    ensures
        r == drawable(ctx@, id as int, motions@, limit as nat),
{
    match ctx.node(id) {
        None => true,
        Some(node) => {
            if node.rect.width == 0 || node.rect.height == 0 {
                return true;
            }
            if (id as usize) >= motions.len() {
                return false;
            }
            match checked_clip(ctx, id, limit) {
                None => false,
                Some(c) => {
                    match c {
                        Some(c) => {
                            if (c.0 as u32) + (c.2 as u32) > 0xffff || (c.1 as u32) + (c.3 as u32) > 0xffff {
                                return false;
                            }
                        },
                        None => {},
                    }
                    node_fits_check(node, &motions[id as usize])
                },
            }
        },
    }
}

/// Nodes are drawn by ascending stacking order: along the drawing order the
/// z-index never decreases, so a node with a higher z-index is drawn later,
/// on top.
pub proof fn law_render_order_by_z(v: CtxView)
    ensures
        forall|i: int, j: int|
            0 <= i <= j < render_order(v).len() ==> #[trigger] render_order(v)[i].z <= #[trigger] render_order(v)[j].z,
{
    let s = render_order(v);
    law_stable_sort_ascending(render_candidates(v, live_ids(v)));
    assert forall|i: int, j: int| 0 <= i <= j < s.len() implies #[trigger] s[i].z <= #[trigger] s[j].z by {
        assert(s[i].spec_key() <= s[j].spec_key());
    }
}

/// The operations that draw a frame on a `cols` by `rows` screen: the
/// background, every entry of the drawing order, then a reset.
pub open spec fn frame_draws(v: CtxView, cols: u16, rows: u16, ms: Seq<Motion>, t: Theme) -> Seq<Draw> {
    let order = render_order(v);
    seq![Draw::Bg(t.bg)] + rows_draws(|row: int| seq![Draw::Move(0, row as u16), Draw::Text(spaces(cols as nat))], 0, rows as int)
        + rows_draws(|k: int| entry_draws(v, order[k], ms, t), 0, order.len() as int) + seq![Draw::Reset]
}

fn collect_render_entries(ctx: &Context) -> (r: Vec<RenderEntry>)
    requires
        ctx.wf(),
    ensures
        r@ == render_candidates(ctx@, live_ids(ctx@)),
{
    let ids = ctx.live_ids();
    let mut r: Vec<RenderEntry> = Vec::new();
    let n = ids.len();
    let mut i: usize = 0;
    while i < n
        invariant
            n == ids@.len(),
            ids@ == live_ids(ctx@),
            0 <= i <= n,
            r@ == render_candidates(ctx@, ids@.take(i as int)),
        decreases n - i,
    {
        proof {
            assert(ids@.take(i + 1).drop_last() =~= ids@.take(i as int));
            assert(ids@.take(i + 1).last() == ids@[i as int]);
        }
        match ctx.node(ids[i]) {
            Some(node) => {
                if node.visible {
                    r.push(RenderEntry { id: node.id, z: node.z_index });
                }
            },
            None => {},
        }
        i = i + 1;
    }
    proof {
        assert(ids@.take(n as int) =~= ids@);
    }
    r
}

fn fill_background(term: &mut Term, theme: &Theme, Ghost(v0): Ghost<TermView>)
    requires
        old(term).wf(),
        old(term)@ == v0,
    ensures
        final(term).wf(),
        final(term)@ == run_draws(v0, seq![Draw::Bg(theme.bg)] + rows_draws(
            |row: int| seq![Draw::Move(0, row as u16), Draw::Text(spaces(v0.cols as nat))],
            0,
            v0.rows as int,
        )),
{
    proof {
        lemma_run_empty(v0);
    }
    let cols = term.cols();
    let rows = term.rows();
    term.bg_rgb(theme.bg.0, theme.bg.1, theme.bg.2);
    let ghost head = seq![Draw::Bg(theme.bg)];
    let ghost f = |row: int| seq![Draw::Move(0, row as u16), Draw::Text(spaces(v0.cols as nat))];
    proof {
        lemma_run_push(v0, seq![], Draw::Bg(theme.bg));
        assert(Seq::<Draw>::empty().push(Draw::Bg(theme.bg)) =~= head);
        assert(rows_draws(f, 0, 0) =~= seq![]);
        assert(head + rows_draws(f, 0, 0) =~= head);
    }
    let mut row: u16 = 0;
    while row < rows
        invariant
            row <= rows,
            rows == v0.rows,
            cols == v0.cols,
            f == (|row: int| seq![Draw::Move(0, row as u16), Draw::Text(spaces(v0.cols as nat))]),
            term.wf(),
            term@ == run_draws(v0, head + rows_draws(f, 0, row as int)),
        decreases rows - row,
    {
        let ghost before = head + rows_draws(f, 0, row as int);
        term.move_to(0, row);
        proof {
            lemma_run_push(v0, before, Draw::Move(0, row));
        }
        term.print_n(' ', cols as usize);
        proof {
            assert(Seq::new(cols as nat, |i: int| ' ') =~= spaces(cols as nat));
            lemma_run_push(v0, before.push(Draw::Move(0, row)), Draw::Text(spaces(cols as nat)));
            assert(rows_draws(f, 0, row + 1) == rows_draws(f, 0, row as int) + f(row as int));
            assert(before.push(Draw::Move(0, row)).push(Draw::Text(spaces(cols as nat))) =~= head + rows_draws(f, 0, row + 1));
        }
        row = row + 1;
    }
}

fn draw_entry(ctx: &Context, term: &mut Term, e: RenderEntry, motions: &Vec<Motion>, theme: &Theme, Ghost(v0): Ghost<TermView>, Ghost(ds): Ghost<Seq<Draw>>)
    requires
        ctx.wf(),
        old(term).wf(),
        old(term)@ == run_draws(v0, ds),
        entry_ok(ctx@, e, motions@),
    ensures
        final(term).wf(),
        final(term)@ == run_draws(v0, ds + entry_draws(ctx@, e, motions@, *theme)),
{
    let ghost v = ctx@;
    match ctx.node(e.id) {
        None => {
            proof {
                assert(ds + seq![] =~= ds);
            }
        },
        Some(node) => {
            if node.rect.width == 0 || node.rect.height == 0 {
                proof {
                    assert(ds + seq![] =~= ds);
                }
            } else {
                let clip = compute_clip(ctx, e.id);
                let ghost d0: nat = choose|d: nat| walk_ends(v, e.id as int, d);
                proof {
                    let d1 = choose|d: nat| walk_ends(v, e.id as int, d) && walk_fits(v, e.id as int, None, d);
                    assert(walk_ends(v, e.id as int, d1));
                    assert(walk_ends(v, e.id as int, d0));
                    assert(opt_ints(clip) == clip_of(v, e.id as int));
                }
                let ghost cd: Seq<Draw> = match clip_of(v, e.id as int) {
                    Some(c) => seq![Draw::Clip(Some((c.0 as u16, c.1 as u16, c.2 as u16, c.3 as u16)))],
                    None => seq![],
                };
                match clip {
                    Some(c) => {
                        term.set_clip(c.0, c.1, c.2, c.3);
                        proof {
                            lemma_run_push(v0, ds, Draw::Clip(Some(c)));
                            assert(ds.push(Draw::Clip(Some(c))) =~= ds + cd);
                        }
                    },
                    None => {
                        proof {
                            assert(ds + cd =~= ds);
                        }
                    },
                }
                let m = &motions[e.id as usize];
                let ghost v1 = term@;
                render_node(term, node, m, theme);
                proof {
                    lemma_run_concat(v0, ds + cd, node_draws(node@, *m, *theme));
                }
                let ghost d2 = ds + cd + node_draws(node@, *m, *theme);
                term.clear_clip();
                proof {
                    lemma_run_push(v0, d2, Draw::Clip(None));
                    assert(d2.push(Draw::Clip(None)) =~= ds + entry_draws(v, e, motions@, *theme));
                }
            }
        },
    }
}

/// Draws a frame: the theme's background over the whole screen, then each
/// visible node in stacking order (see `frame_draws`), then a reset.
pub fn render_ui(ctx: &Context, term: &mut Term, theme: &Theme, motions: &Vec<Motion>)
    requires
        ctx.wf(),
        old(term).wf(),
        forall|k: int| 0 <= k < render_order(ctx@).len() ==> entry_ok(ctx@, #[trigger] render_order(ctx@)[k], motions@),
    ensures
        final(term).wf(),
        final(term)@ == run_draws(old(term)@, frame_draws(ctx@, old(term)@.cols, old(term)@.rows, motions@, *theme)),
{
    let ghost v0 = term@;
    let ghost v = ctx@;
    let cands = collect_render_entries(ctx);
    let order = sort_by_key(cands);
    fill_background(term, theme, Ghost(v0));
    let ghost head = seq![Draw::Bg(theme.bg)] + rows_draws(
        |row: int| seq![Draw::Move(0, row as u16), Draw::Text(spaces(v0.cols as nat))],
        0,
        v0.rows as int,
    );
    let ghost f = |k: int| entry_draws(v, order@[k], motions@, *theme);
    proof {
        assert(rows_draws(f, 0, 0) =~= seq![]);
        assert(head + rows_draws(f, 0, 0) =~= head);
    }
    let n = order.len();
    let mut k: usize = 0;
    while k < n
        invariant
            n == order@.len(),
            order@ == render_order(v),
            v == ctx@,
            ctx.wf(),
            0 <= k <= n,
            forall|j: int| 0 <= j < render_order(v).len() ==> entry_ok(v, #[trigger] render_order(v)[j], motions@),
            f == (|k: int| entry_draws(v, order@[k], motions@, *theme)),
            term.wf(),
            term@ == run_draws(v0, head + rows_draws(f, 0, k as int)),
        decreases n - k,
    {
        let ghost before = head + rows_draws(f, 0, k as int);
        draw_entry(ctx, term, order[k], motions, theme, Ghost(v0), Ghost(before));
        proof {
            assert(entry_ok(v, render_order(v)[k as int], motions@));
            assert(rows_draws(f, 0, k + 1) == rows_draws(f, 0, k as int) + f(k as int));
            assert(before + entry_draws(v, order@[k as int], motions@, *theme) =~= head + rows_draws(f, 0, k + 1));
        }
        k = k + 1;
    }
    let ghost body = head + rows_draws(f, 0, n as int);
    term.reset();
    proof {
        lemma_run_push(v0, body, Draw::Reset);
        assert(body.push(Draw::Reset) =~= frame_draws(v, v0.cols, v0.rows, motions@, *theme));
    }
}

} // verus!
