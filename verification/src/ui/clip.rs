//! Clipping of nodes to the insides of their container and panel ancestors.
use vstd::prelude::*;

use crate::base::context::{Context, CtxView, is_live};
use crate::base::node::{Content, NodeId, NodeView};

verus! {

/// `a - b`, or 0 when `b` is larger.
pub open spec fn sat(a: int, b: int) -> int {
    if a >= b {
        a - b
    } else {
        0
    }
}

/// A rectangle (x, y, width, height) as integers.
pub open spec fn ints(c: (u16, u16, u16, u16)) -> (int, int, int, int) {
    (c.0 as int, c.1 as int, c.2 as int, c.3 as int)
}

/// An optional rectangle as integers.
pub open spec fn opt_ints(c: Option<(u16, u16, u16, u16)>) -> Option<(int, int, int, int)> {
    match c {
        Some(x) => Some(ints(x)),
        None => None,
    }
}

/// The overlap of two rectangles (empty ones keep the larger corner).
pub open spec fn intersect(a: (int, int, int, int), b: (int, int, int, int)) -> (int, int, int, int) {
    let x = if a.0 >= b.0 { a.0 } else { b.0 };
    let y = if a.1 >= b.1 { a.1 } else { b.1 };
    let x1 = if a.0 + a.2 <= b.0 + b.2 { a.0 + a.2 } else { b.0 + b.2 };
    let y1 = if a.1 + a.3 <= b.1 + b.3 { a.1 + a.3 } else { b.1 + b.3 };
    (x, y, sat(x1, x), sat(y1, y))
}

/// Whether a rectangle's far edges fit in 16 bits.
pub open spec fn fits(c: (int, int, int, int)) -> bool {
    c.0 + c.2 <= u16::MAX && c.1 + c.3 <= u16::MAX
}

/// The overlap of two rectangles whose far edges fit in 16 bits.
pub fn intersect_rects(a: (u16, u16, u16, u16), b: (u16, u16, u16, u16)) -> (r: (u16, u16, u16, u16))
    requires
        fits(ints(a)),
        fits(ints(b)),
    ensures
        ints(r) == intersect(ints(a), ints(b)),
{
    let x = if a.0 >= b.0 { a.0 } else { b.0 };
    let y = if a.1 >= b.1 { a.1 } else { b.1 };
    let x1 = if a.0 + a.2 <= b.0 + b.2 { a.0 + a.2 } else { b.0 + b.2 };
    let y1 = if a.1 + a.3 <= b.1 + b.3 { a.1 + a.3 } else { b.1 + b.3 };
    let w = if x1 >= x { x1 - x } else { 0 };
    let h = if y1 >= y { y1 - y } else { 0 };
    (x, y, w, h)
}

/// The rectangle a node clips its descendants to: its own for a container,
/// the inside of its border for a panel; other nodes do not clip.
pub open spec fn frame_of(n: NodeView) -> Option<(int, int, int, int)> {
    let r = n.rect;
    match n.content {
        Content::Container => Some((r.x as int, r.y as int, r.width as int, r.height as int)),
        Content::Panel { .. } => Some((r.x + 1, r.y + 1, sat(r.width as int, 2), sat(r.height as int, 2))),
        _ => None,
    }
}

/// The clip after passing parent `p` on the way up.
pub open spec fn clip_step(v: CtxView, p: int, clip: Option<(int, int, int, int)>) -> Option<(int, int, int, int)> {
    if is_live(v, p) {
        match frame_of(v.slots[p].unwrap()) {
            Some(f) => Some(
                match clip {
                    Some(c) => intersect(c, f),
                    None => f,
                },
            ),
            None => clip,
        }
    } else {
        clip
    }
}

/// Whether passing parent `p` stays within 16-bit arithmetic: a panel's
/// inside corner, and both rectangles of an overlap, fit.
pub open spec fn step_fits(v: CtxView, p: int, clip: Option<(int, int, int, int)>) -> bool {
    is_live(v, p) ==> match frame_of(v.slots[p].unwrap()) {
        Some(f) => f.0 <= u16::MAX && f.1 <= u16::MAX && (clip matches Some(c) ==> fits(c) && fits(f)),
        None => true,
    }
}

/// Whether the walk up the parent links from `id` ends within `fuel` steps.
pub open spec fn walk_ends(v: CtxView, id: int, fuel: nat) -> bool
    decreases fuel,
{
    if !is_live(v, id) {
        true
    } else {
        match v.slots[id].unwrap().parent {
            None => true,
            Some(p) => fuel > 0 && walk_ends(v, p as int, (fuel - 1) as nat),
        }
    }
}

/// The clip reached by walking up from `id`, starting from `clip`.
pub open spec fn clip_walk(v: CtxView, id: int, clip: Option<(int, int, int, int)>, fuel: nat) -> Option<(int, int, int, int)>
    decreases fuel,
{
    if fuel == 0 || !is_live(v, id) {
        clip
    } else {
        match v.slots[id].unwrap().parent {
            None => clip,
            Some(p) => clip_walk(v, p as int, clip_step(v, p as int, clip), (fuel - 1) as nat),
        }
    }
}

/// Whether every step of the walk up from `id` stays within 16-bit arithmetic.
pub open spec fn walk_fits(v: CtxView, id: int, clip: Option<(int, int, int, int)>, fuel: nat) -> bool
    decreases fuel,
{
    if fuel == 0 || !is_live(v, id) {
        true
    } else {
        match v.slots[id].unwrap().parent {
            None => true,
            Some(p) => step_fits(v, p as int, clip) && walk_fits(v, p as int, clip_step(v, p as int, clip), (fuel - 1) as nat),
        }
    }
}

/// Once the walk has ended, more fuel changes nothing.
pub proof fn lemma_walk_fuel(v: CtxView, id: int, clip: Option<(int, int, int, int)>, d1: nat, d2: nat)
    requires
        walk_ends(v, id, d1),
        d1 <= d2,
    ensures
        walk_ends(v, id, d2),
        clip_walk(v, id, clip, d1) == clip_walk(v, id, clip, d2),
        walk_fits(v, id, clip, d1) == walk_fits(v, id, clip, d2),
    decreases d1,
{
    if is_live(v, id) {
        match v.slots[id].unwrap().parent {
            None => {},
            Some(p) => {
                lemma_walk_fuel(v, p as int, clip_step(v, p as int, clip), (d1 - 1) as nat, (d2 - 1) as nat);
            },
        }
    }
}

/// The clip rectangle of node `id`: the overlap of the frames of its
/// container and panel ancestors, or none when it has none.
pub fn compute_clip(ctx: &Context, id: NodeId) -> (r: Option<(u16, u16, u16, u16)>)
    requires
        ctx.wf(),
        exists|d: nat| walk_ends(ctx@, id as int, d) && walk_fits(ctx@, id as int, None, d),
    ensures
        forall|d: nat| #[trigger] walk_ends(ctx@, id as int, d) ==> opt_ints(r) == clip_walk(ctx@, id as int, None, d),
{
    let ghost v = ctx@;
    let ghost d0: nat = choose|d: nat| walk_ends(v, id as int, d) && walk_fits(v, id as int, None, d);
    let mut clip: Option<(u16, u16, u16, u16)> = None;
    let mut current = id;
    let ghost mut fuel: nat = d0;
    loop
        invariant
            v == ctx@,
            ctx.wf(),
            walk_ends(v, current as int, fuel),
            walk_fits(v, current as int, opt_ints(clip), fuel),
            clip_walk(v, current as int, opt_ints(clip), fuel) == clip_walk(v, id as int, None, d0),
        ensures
            opt_ints(clip) == clip_walk(v, id as int, None, d0),
        decreases fuel,
    {
        let node = match ctx.node(current) {
            Some(n) => n,
            None => {
                break;
            },
        };
        let parent_id = match node.parent {
            Some(p) => p,
            None => {
                break;
            },
        };
        match ctx.node(parent_id) {
            Some(parent) => {
                let rr = parent.rect;
                let frame: Option<(u16, u16, u16, u16)> = match parent.content {
                    Content::Container => Some((rr.x, rr.y, rr.width, rr.height)),
                    Content::Panel { .. } => Some(
                        (
                            rr.x + 1,
                            rr.y + 1,
                            if rr.width >= 2 { rr.width - 2 } else { 0 },
                            if rr.height >= 2 { rr.height - 2 } else { 0 },
                        ),
                    ),
                    _ => None,
                };
                match frame {
                    Some(f) => {
                        clip = Some(
                            match clip {
                                Some(c) => intersect_rects(c, f),
                                None => f,
                            },
                        );
                    },
                    None => {},
                }
            },
            None => {},
        }
        current = parent_id;
        proof {
            fuel = (fuel - 1) as nat;
        }
    }
    proof {
        assert forall|d: nat| #[trigger] walk_ends(v, id as int, d) implies opt_ints(clip) == clip_walk(v, id as int, None, d) by {
            if d <= d0 {
                lemma_walk_fuel(v, id as int, None, d, d0);
            } else {
                lemma_walk_fuel(v, id as int, None, d0, d);
            }
        }
    }
    clip
}

/// The clip of node `id` when the walk up its parent links ends within
/// `limit` steps and every step stays within 16-bit coordinates; none when
/// it does not.
pub fn checked_clip(ctx: &Context, id: NodeId, limit: usize) -> (r: Option<Option<(u16, u16, u16, u16)>>)
    requires
        ctx.wf(),
    ensures
        r is Some <==> walk_ends(ctx@, id as int, limit as nat) && walk_fits(ctx@, id as int, None, limit as nat),
        r matches Some(c) ==> opt_ints(c) == clip_walk(ctx@, id as int, None, limit as nat),
{
    let ghost v = ctx@;
    let mut clip: Option<(u16, u16, u16, u16)> = None;
    let mut current = id;
    let mut fuel = limit;
    loop
        invariant
            v == ctx@,
            ctx.wf(),
            walk_ends(v, id as int, limit as nat) == walk_ends(v, current as int, fuel as nat),
            walk_fits(v, id as int, None, limit as nat) == walk_fits(v, current as int, opt_ints(clip), fuel as nat),
            clip_walk(v, id as int, None, limit as nat) == clip_walk(v, current as int, opt_ints(clip), fuel as nat),
        decreases fuel,
    {
        let node = match ctx.node(current) {
            Some(n) => n,
            None => {
                return Some(clip);
            },
        };
        let parent_id = match node.parent {
            Some(p) => p,
            None => {
                return Some(clip);
            },
        };
        if fuel == 0 {
            return None;
        }
        match ctx.node(parent_id) {
            Some(parent) => {
                let rr = parent.rect;
                let frame: Option<(u16, u16, u16, u16)> = match parent.content {
                    Content::Container => Some((rr.x, rr.y, rr.width, rr.height)),
                    Content::Panel { .. } => {
                        if rr.x == u16::MAX || rr.y == u16::MAX {
                            return None;
                        }
                        Some(
                            (
                                rr.x + 1,
                                rr.y + 1,
                                if rr.width >= 2 { rr.width - 2 } else { 0 },
                                if rr.height >= 2 { rr.height - 2 } else { 0 },
                            ),
                        )
                    },
                    _ => None,
                };
                match frame {
                    Some(f) => {
                        match clip {
                            Some(c) => {
                                let c_fits = (c.0 as u32) + (c.2 as u32) <= 0xffff && (c.1 as u32) + (c.3 as u32) <= 0xffff;
                                let f_fits = (f.0 as u32) + (f.2 as u32) <= 0xffff && (f.1 as u32) + (f.3 as u32) <= 0xffff;
                                if !(c_fits && f_fits) {
                                    return None;
                                }
                                clip = Some(intersect_rects(c, f));
                            },
                            None => {
                                clip = Some(f);
                            },
                        }
                    },
                    None => {},
                }
            },
            None => {},
        }
        current = parent_id;
        fuel = fuel - 1;
    }
}

} // verus!
