//! The integer side of the intro animation: its pseudo-random numbers, the
//! look of each leaf, and the background fill.
use vstd::prelude::*;

use crate::term::{Term, TermView};
use crate::text::{sat_sub, str_chars};
use crate::ui::render::{Draw, lemma_run_empty, lemma_run_push, rows_draws, run_draws, spaces};

verus! {

/// The intro's background color.
pub const BG: (u8, u8, u8) = (10, 10, 16);

/// Position hash: a multiplicative mix of the two coordinates followed by
/// the xorshift steps 13, 7, 17.
pub open spec fn spec_hash(a: usize, b: usize) -> u32 {
    let x0 = (a as u32).wrapping_mul(2654435761).wrapping_add(b as u32).wrapping_mul(2246822519);
    let x1 = x0 ^ (x0 >> 13);
    let x2 = x1 ^ (x1 << 7);
    x2 ^ (x2 >> 17)
}

/// Hashes a (row, column) position to a well-mixed 32-bit value.
pub fn hash(a: usize, b: usize) -> (r: u32)
    ensures
        r == spec_hash(a, b),
{
    let mut x = (#[verifier::truncate] (a as u32)).wrapping_mul(2654435761).wrapping_add(
        #[verifier::truncate] (b as u32),
    ).wrapping_mul(2246822519);
    x = x ^ (x >> 13);
    x = x ^ (x << 7);
    x = x ^ (x >> 17);
    x
}

/// One xorshift step (shifts 13, 17, 5).
pub open spec fn spec_xorshift(s: u32) -> u32 {
    let x1 = s ^ (s << 13);
    let x2 = x1 ^ (x1 >> 17);
    x2 ^ (x2 << 5)
}

/// Advances the generator state and returns the new state.
pub fn xorshift(state: &mut u32) -> (r: u32)
    ensures
        r == spec_xorshift(*old(state)),
        *final(state) == r,
{
    let mut x = *state;
    x = x ^ (x << 13);
    x = x ^ (x >> 17);
    x = x ^ (x << 5);
    *state = x;
    x
}

/// The characters leaves are drawn with.
pub open spec fn leaf_chars() -> Seq<char> {
    seq!['@', '&', '#', '%', '*', 'o']
}

/// The leaf colors, from green to autumn brown.
pub open spec fn leaf_palette() -> Seq<(u8, u8, u8)> {
    seq![(55, 155, 55), (95, 165, 40), (170, 155, 30), (195, 135, 25), (205, 100, 25), (185, 60, 30), (155, 40, 35), (115, 70, 45)]
}

/// A leaf's character and color from its position hash `h` and its autumn
/// shade: the character by `h` modulo 6; the color one of the first three
/// by `h / 3`, moved `autumn` shades on, at most to the last.
pub open spec fn spec_leaf_look(h: u32, autumn: usize) -> (char, (u8, u8, u8)) {
    let base = ((h / 3) % 3) as int;
    let ci = if base + autumn <= 7 { base + autumn } else { 7 };
    (leaf_chars()[(h % 6) as int], leaf_palette()[ci])
}

/// The character and color of a leaf (see `spec_leaf_look`).
pub fn leaf_look(h: u32, autumn: usize) -> (r: (char, (u8, u8, u8)))
    ensures
        r == spec_leaf_look(h, autumn),
{
    let chars = vec!['@', '&', '#', '%', '*', 'o'];
    let palette = vec![(55u8, 155u8, 55u8), (95, 165, 40), (170, 155, 30), (195, 135, 25), (205, 100, 25), (185, 60, 30), (155, 40, 35), (115, 70, 45)];
    proof {
        assert(chars@ =~= leaf_chars());
        assert(palette@ =~= leaf_palette());
    }
    let base = ((h / 3) % 3) as usize;
    let ci = if autumn <= 7 - base { base + autumn } else { 7 };
    (chars[(h % 6) as usize], palette[ci])
}

/// The operations that paint the background: its color as both background
/// and foreground, then a row of spaces on each of `rows` rows.
pub open spec fn fill_bg_draws(cols: usize, rows: usize) -> Seq<Draw> {
    seq![Draw::Bg(BG), Draw::Fg(BG)] + rows_draws(
        |r: int| seq![Draw::Move(0, r as u16), Draw::Text(spaces(cols as nat))],
        0,
        rows as int,
    )
}

/// Paints `rows` rows of `cols` columns in the background color.
pub fn fill_bg(term: &mut Term, cols: usize, rows: usize)
    requires
        old(term).wf(),
    ensures
        final(term).wf(),
        final(term)@ == run_draws(old(term)@, fill_bg_draws(cols, rows)),
{
    let ghost v0 = term@;
    proof {
        lemma_run_empty(v0);
    }
    term.bg_rgb(BG.0, BG.1, BG.2);
    proof {
        lemma_run_push(v0, seq![], Draw::Bg(BG));
    }
    term.fg_rgb(BG.0, BG.1, BG.2);
    let ghost head = seq![Draw::Bg(BG), Draw::Fg(BG)];
    let ghost f = |r: int| seq![Draw::Move(0, r as u16), Draw::Text(spaces(cols as nat))];
    proof {
        lemma_run_push(v0, Seq::<Draw>::empty().push(Draw::Bg(BG)), Draw::Fg(BG));
        assert(Seq::<Draw>::empty().push(Draw::Bg(BG)).push(Draw::Fg(BG)) =~= head);
        assert(rows_draws(f, 0, 0) =~= seq![]);
        assert(head + rows_draws(f, 0, 0) =~= head);
    }
    let mut r: usize = 0;
    while r < rows
        invariant
            r <= rows,
            f == (|r: int| seq![Draw::Move(0, r as u16), Draw::Text(spaces(cols as nat))]),
            term.wf(),
            term@ == run_draws(v0, head + rows_draws(f, 0, r as int)),
        decreases rows - r,
    {
        let ghost before = head + rows_draws(f, 0, r as int);
        let row: u16 = #[verifier::truncate] (r as u16);
        term.move_to(0, row);
        proof {
            lemma_run_push(v0, before, Draw::Move(0, row));
        }
        term.print_n(' ', cols);
        proof {
            assert(Seq::new(cols as nat, |i: int| ' ') =~= spaces(cols as nat));
            lemma_run_push(v0, before.push(Draw::Move(0, row)), Draw::Text(spaces(cols as nat)));
            assert(rows_draws(f, 0, r + 1) == rows_draws(f, 0, r as int) + f(r as int));
            assert(before.push(Draw::Move(0, row)).push(Draw::Text(spaces(cols as nat))) =~= head + rows_draws(f, 0, r + 1));
        }
        r = r + 1;
    }
}

/// The color of the crown's branches.
pub const BRANCH_FG: (u8, u8, u8) = (100, 80, 60);

/// The color of the trunk.
pub const TRUNK_FG: (u8, u8, u8) = (75, 60, 45);

/// The color of the title.
pub const TITLE_FG: (u8, u8, u8) = (140, 135, 125);

/// The bare crown revealed as the leaves blow away, 21 columns wide.
pub open spec fn branches_art() -> Seq<Seq<char>> {
    seq![
        r"  \   \       /   /  "@,
        r"   \   \     /   /   "@,
        r"    \   \   /   /    "@,
        r"     \   \_/   /     "@,
        r"      \   |   /      "@,
        r"       \  |  /       "@,
        r"        \_|_/        "@,
    ]
}

/// The trunk below the crown, 21 columns wide.
pub open spec fn trunk_art() -> Seq<Seq<char>> {
    seq![
        r"          |          "@,
        r"          |          "@,
        r"          |          "@,
        r"         /|\         "@,
        r"    ____/ | \____    "@,
    ]
}

/// The title, 37 columns wide.
pub open spec fn title_art() -> Seq<Seq<char>> {
    seq![
        r" ____   _____   ____     _    __   __"@,
        r"|  _ \ | ____| / ___|   / \   \ \ / /"@,
        r"| | | ||  _|  | |      / _ \   \ V / "@,
        r"| |_| || |___ | |___  / ___ \   | |  "@,
        r"|____/ |_____| \____|/_/   \_\  |_|  "@,
    ]
}

/// The cells of `line` drawn in color `fg` on `row` from column `col0`:
/// each character other than a space, left to right.
pub open spec fn line_cells(line: Seq<char>, row: int, col0: int, fg: (u8, u8, u8)) -> Seq<(u16, u16, char, (u8, u8, u8))>
    decreases line.len(),
{
    if line.len() == 0 {
        seq![]
    } else {
        line_cells(line.drop_last(), row, col0, fg) + if line.last() != ' ' {
            seq![(row as u16, (col0 + line.len() - 1) as u16, line.last(), fg)]
        } else {
            seq![]
        }
    }
}

/// The cells of `art` drawn in color `fg` with its top-left corner at
/// (`row0`, `col0`), line by line.
pub open spec fn art_cells(art: Seq<Seq<char>>, row0: int, col0: int, fg: (u8, u8, u8)) -> Seq<(u16, u16, char, (u8, u8, u8))>
    decreases art.len(),
{
    if art.len() == 0 {
        seq![]
    } else {
        art_cells(art.drop_last(), row0, col0, fg) + line_cells(art.last(), row0 + art.len() - 1, col0, fg)
    }
}

/// Where the intro's pieces stand on a `cols` by `rows` screen: the
/// 25-row picture (13-row canopy, 5-row trunk, 2 blank rows, 5-row title)
/// centered vertically, the 21-column tree and the 37-column title centered
/// horizontally; the crown fills the bottom 7 rows of the canopy.
pub open spec fn intro_layout(cols: nat, rows: nat) -> (
    Seq<(u16, u16, char, (u8, u8, u8))>,
    Seq<(u16, u16, char, (u8, u8, u8))>,
) {
    let start_y = sat_sub(rows, 25) / 2;
    let struct_x = sat_sub(cols, 21) / 2;
    let title_x = sat_sub(cols, 37) / 2;
    (
        art_cells(branches_art(), start_y + 6int, struct_x as int, BRANCH_FG) + art_cells(
            trunk_art(),
            start_y + 13int,
            struct_x as int,
            TRUNK_FG,
        ),
        art_cells(title_art(), start_y + 20int, title_x as int, TITLE_FG),
    )
}

/// Appends the cells of `art` (see `art_cells`).
fn push_art(
    out: &mut Vec<(u16, u16, char, (u8, u8, u8))>,
    art: &Vec<Vec<char>>,
    row0: usize,
    col0: usize,
    fg: (u8, u8, u8),
    Ghost(a): Ghost<Seq<Seq<char>>>,
)
    requires
        art@.len() == a.len(),
        forall|i: int| 0 <= i < a.len() ==> #[trigger] art@[i]@ == a[i],
        row0 + a.len() <= u16::MAX,
        forall|i: int| 0 <= i < a.len() ==> col0 + (#[trigger] a[i]).len() <= u16::MAX,
    ensures
        final(out)@ == old(out)@ + art_cells(a, row0 as int, col0 as int, fg),
{
    let n = art.len();
    let mut i: usize = 0;
    proof {
        assert(a.take(0) =~= Seq::<Seq<char>>::empty());
        assert(old(out)@ + art_cells(a.take(0), row0 as int, col0 as int, fg) =~= old(out)@);
    }
    while i < n
        invariant
            n == a.len(),
            art@.len() == a.len(),
            forall|k: int| 0 <= k < a.len() ==> #[trigger] art@[k]@ == a[k],
            row0 + a.len() <= u16::MAX,
            forall|k: int| 0 <= k < a.len() ==> col0 + (#[trigger] a[k]).len() <= u16::MAX,
            0 <= i <= n,
            out@ == old(out)@ + art_cells(a.take(i as int), row0 as int, col0 as int, fg),
        decreases n - i,
    {
        let line = &art[i];
        let m = line.len();
        let ghost l = a[i as int];
        let ghost base = out@;
        proof {
            assert(line@ == l);
            assert(l.take(0) =~= Seq::<char>::empty());
            assert(base + line_cells(l.take(0), row0 + i, col0 as int, fg) =~= base);
        }
        let mut j: usize = 0;
        while j < m
            invariant
                line@ == l,
                m == l.len(),
                col0 + l.len() <= u16::MAX,
                row0 + i < u16::MAX,
                0 <= j <= m,
                out@ == base + line_cells(l.take(j as int), row0 + i, col0 as int, fg),
            decreases m - j,
        {
            let ch = line[j];
            proof {
                assert(l.take(j + 1).drop_last() =~= l.take(j as int));
                assert(l.take(j + 1).last() == ch);
            }
            if ch != ' ' {
                out.push(((row0 + i) as u16, (col0 + j) as u16, ch, fg));
            }
            proof {
                assert(out@ =~= base + line_cells(l.take(j + 1), row0 + i, col0 as int, fg));
            }
            j = j + 1;
        }
        proof {
            assert(l.take(m as int) =~= l);
            assert(a.take(i + 1).drop_last() =~= a.take(i as int));
            assert(a.take(i + 1).last() == l);
            assert(out@ =~= old(out)@ + art_cells(a.take(i + 1), row0 as int, col0 as int, fg));
        }
        i = i + 1;
    }
    proof {
        assert(a.take(n as int) =~= a);
    }
}

/// The cells of the tree (crown and trunk) and of the title on a `cols` by
/// `rows` screen (see `intro_layout`).
pub fn intro_cells(cols: u16, rows: u16) -> (r: (Vec<(u16, u16, char, (u8, u8, u8))>, Vec<(u16, u16, char, (u8, u8, u8))>))
    ensures
        (r.0@, r.1@) == intro_layout(cols as nat, rows as nat),
{
    let branches: Vec<Vec<char>> = vec![
        str_chars(r"  \   \       /   /  "),
        str_chars(r"   \   \     /   /   "),
        str_chars(r"    \   \   /   /    "),
        str_chars(r"     \   \_/   /     "),
        str_chars(r"      \   |   /      "),
        str_chars(r"       \  |  /       "),
        str_chars(r"        \_|_/        "),
    ];
    let trunk: Vec<Vec<char>> = vec![
        str_chars(r"          |          "),
        str_chars(r"          |          "),
        str_chars(r"          |          "),
        str_chars(r"         /|\         "),
        str_chars(r"    ____/ | \____    "),
    ];
    let title: Vec<Vec<char>> = vec![
        str_chars(r" ____   _____   ____     _    __   __"),
        str_chars(r"|  _ \ | ____| / ___|   / \   \ \ / /"),
        str_chars(r"| | | ||  _|  | |      / _ \   \ V / "),
        str_chars(r"| |_| || |___ | |___  / ___ \   | |  "),
        str_chars(r"|____/ |_____| \____|/_/   \_\  |_|  "),
    ];
    proof {
        reveal_strlit(r"  \   \       /   /  ");
        reveal_strlit(r"   \   \     /   /   ");
        reveal_strlit(r"    \   \   /   /    ");
        reveal_strlit(r"     \   \_/   /     ");
        reveal_strlit(r"      \   |   /      ");
        reveal_strlit(r"       \  |  /       ");
        reveal_strlit(r"        \_|_/        ");
        reveal_strlit(r"          |          ");
        reveal_strlit(r"          |          ");
        reveal_strlit(r"          |          ");
        reveal_strlit(r"         /|\         ");
        reveal_strlit(r"    ____/ | \____    ");
        reveal_strlit(r" ____   _____   ____     _    __   __");
        reveal_strlit(r"|  _ \ | ____| / ___|   / \   \ \ / /");
        reveal_strlit(r"| | | ||  _|  | |      / _ \   \ V / ");
        reveal_strlit(r"| |_| || |___ | |___  / ___ \   | |  ");
        reveal_strlit(r"|____/ |_____| \____|/_/   \_\  |_|  ");
        assert(branches@.len() == branches_art().len());
        assert(trunk@.len() == trunk_art().len());
        assert(title@.len() == title_art().len());
        assert forall|i: int| 0 <= i < branches_art().len() implies #[trigger] branches@[i]@ == branches_art()[i] && branches_art()[i].len() == 21 by {}
        assert forall|i: int| 0 <= i < trunk_art().len() implies #[trigger] trunk@[i]@ == trunk_art()[i] && trunk_art()[i].len() == 21 by {}
        assert forall|i: int| 0 <= i < title_art().len() implies #[trigger] title@[i]@ == title_art()[i] && title_art()[i].len() == 37 by {}
    }
    let start_y = (rows as usize).saturating_sub(25) / 2;
    let struct_x = (cols as usize).saturating_sub(21) / 2;
    let title_x = (cols as usize).saturating_sub(37) / 2;
    let mut tree: Vec<(u16, u16, char, (u8, u8, u8))> = Vec::new();
    push_art(&mut tree, &branches, start_y + 6, struct_x, BRANCH_FG, Ghost(branches_art()));
    push_art(&mut tree, &trunk, start_y + 13, struct_x, TRUNK_FG, Ghost(trunk_art()));
    let mut words: Vec<(u16, u16, char, (u8, u8, u8))> = Vec::new();
    push_art(&mut words, &title, start_y + 20, title_x, TITLE_FG, Ghost(title_art()));
    proof {
        assert(tree@ =~= intro_layout(cols as nat, rows as nat).0);
        assert(words@ =~= intro_layout(cols as nat, rows as nat).1);
    }
    (tree, words)
}

} // verus!
