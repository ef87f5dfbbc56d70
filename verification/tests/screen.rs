use decay::base::context::Context;
use decay::base::input::{parse_keys, Input, KeyCode, MouseButton, MouseEvent, MouseKind};
use decay::base::node::{Content, Node, Rect};
use decay::intro::{hash, intro_cells, leaf_look, xorshift};
use decay::term::Term;
use decay::ui::clip::{checked_clip, intersect_rects};
use decay::ui::focus::{interactions_fit, update_interactions, UiState};
use decay::ui::frame::{frame_fits, render_ui, Motion};
use decay::ui::render::BarFill;
use decay::ui::theme::Theme;

#[test]
fn first_flush_redraws_everything() {
    let mut t = Term::new(Some((2, 1)));
    t.move_to(0, 0).print("hi");
    let bytes = t.flush();
    assert_eq!(bytes, b"\x1b[2J\x1b[1;1H\x1b[0m\x1b[38;2;255;255;255mhi\x1b[0m".to_vec());
}

#[test]
fn second_flush_sends_only_changes() {
    let mut t = Term::new(Some((3, 1)));
    t.flush();
    assert_eq!(t.flush(), Vec::<u8>::new());
    t.clear(None);
    t.move_to(1, 0).print("x");
    assert_eq!(t.flush(), b"\x1b[1;2H\x1b[0m\x1b[38;2;255;255;255mx\x1b[0m".to_vec());
}

#[test]
fn unreported_size_is_eighty_by_twenty_four() {
    let t = Term::new(None);
    assert_eq!((t.cols(), t.rows()), (80, 24));
    let t = Term::new(Some((0, 10)));
    assert_eq!((t.cols(), t.rows()), (80, 24));
}

#[test]
fn clipped_print_skips_outside_cells() {
    let mut t = Term::new(Some((4, 1)));
    t.flush();
    t.set_clip(1, 0, 2, 1).move_to(0, 0).print("abcd");
    assert_eq!(t.flush(), b"\x1b[1;2H\x1b[0m\x1b[38;2;255;255;255mbc\x1b[0m".to_vec());
}

#[test]
fn queued_controls_go_first() {
    let mut t = Term::new(Some((1, 1)));
    t.flush();
    t.hide_cursor();
    assert_eq!(t.flush(), b"\x1b[?25l".to_vec());
}

#[test]
fn keys_are_parsed_from_bytes() {
    let keys = parse_keys(b"q\x1b[A\r\t\x7f\x1b[Z");
    assert_eq!(
        keys,
        vec![KeyCode::Char('q'), KeyCode::Up, KeyCode::Enter, KeyCode::Tab, KeyCode::Backspace, KeyCode::BackTab]
    );
}

#[test]
fn overlapping_rects_intersect() {
    assert_eq!(intersect_rects((0, 0, 10, 10), (5, 2, 10, 3)), (5, 2, 5, 3));
    assert_eq!(intersect_rects((0, 0, 2, 2), (5, 5, 1, 1)), (5, 5, 0, 0));
}

#[test]
fn intro_numbers() {
    assert_eq!(hash(0, 0), 0);
    assert_eq!(hash(3, 7), 3031522375);
    assert_eq!(hash(10, 20), 4177827201);
    let mut s = 0xDECA_7135u32;
    assert_eq!(xorshift(&mut s), 2373955875);
    assert_eq!(s, 2373955875);
    let mut one = 1u32;
    assert_eq!(xorshift(&mut one), 270369);
    assert_eq!(leaf_look(7, 0), ('&', (170, 155, 30)));
    assert_eq!(leaf_look(7, 10), ('&', (115, 70, 45)));
    assert_eq!(leaf_look(12, 1), ('@', (170, 155, 30)));
}

fn still(n: usize) -> Vec<Motion> {
    (0..n)
        .map(|_| Motion {
            ticks: 0,
            visible: 0,
            cursor_on: false,
            bar: BarFill { filled: 0, partial: None, colors: Vec::new(), percent: 0 },
        })
        .collect()
}

#[test]
fn frame_draws_text_on_theme_background() {
    let mut ctx = Context::new();
    let mut n = Node::text("ok");
    n.rect = Rect::new(0, 0, 2, 1);
    ctx.add(n);
    let mut t = Term::new(Some((3, 1)));
    let theme = Theme::dark();
    render_ui(&ctx, &mut t, &theme, &still(1));
    let out = String::from_utf8(t.flush()).unwrap();
    assert!(out.contains("ok"));
    assert!(out.contains("\x1b[48;2;24;24;32m"));
}

#[test]
fn tab_moves_focus_and_typing_edits_the_field() {
    let mut ctx = Context::new();
    let mut a = Node::button("a");
    a.rect = Rect::new(0, 0, 4, 3);
    let mut b = Node::text_input("name", 8);
    b.rect = Rect::new(0, 3, 10, 3);
    let ia = ctx.add(a);
    let ib = ctx.add(b);
    let mut ui = UiState::new();
    let mut input = Input::new();
    update_interactions(&mut ctx, Some(&input), &mut ui);
    assert_eq!(ui.focus_list, vec![ia, ib]);
    assert_eq!(ui.focus_index, 0);
    input.press(KeyCode::Tab);
    input.press(KeyCode::Char('h'));
    input.press(KeyCode::Char('i'));
    update_interactions(&mut ctx, Some(&input), &mut ui);
    assert_eq!(ui.focus_index, 1);
    match &ctx.node(ib).unwrap().content {
        Content::TextInput { value, cursor, .. } => {
            assert_eq!(value, "hi");
            assert_eq!(*cursor, 2);
        }
        _ => panic!("expected a text field"),
    }
    input.clear();
    input.push_mouse(MouseEvent { kind: MouseKind::Press(MouseButton::Left), col: 1, row: 1 });
    update_interactions(&mut ctx, Some(&input), &mut ui);
    assert_eq!(ui.focus_index, 0);
}

#[test]
fn clip_walks_up_to_the_panel_inside() {
    let mut ctx = Context::new();
    let mut p = Node::panel("box");
    p.rect = Rect::new(2, 3, 10, 6);
    let ip = ctx.add(p);
    let mut t = Node::text("in");
    t.rect = Rect::new(4, 4, 2, 1);
    let it = ctx.add_child(ip, t);
    assert_eq!(checked_clip(&ctx, it, 5), Some(Some((3, 4, 8, 4))));
    assert_eq!(checked_clip(&ctx, it, 0), None);
    assert_eq!(checked_clip(&ctx, ip, 0), Some(None));
}

#[test]
fn frame_guard_needs_a_motion_per_drawn_node() {
    let mut ctx = Context::new();
    let mut n = Node::text("ok");
    n.rect = Rect::new(0, 0, 2, 1);
    ctx.add(n);
    assert!(frame_fits(&ctx, &still(1)));
    assert!(!frame_fits(&ctx, &still(0)));
}

#[test]
fn frame_guard_refuses_a_button_past_the_last_row() {
    let mut ctx = Context::new();
    let mut b = Node::button("b");
    b.rect = Rect::new(0, 65530, 4, 10);
    ctx.add(b);
    assert!(!frame_fits(&ctx, &still(1)));
}

#[test]
fn interaction_guard_checks_clicked_rects_and_focused_cursor() {
    let mut ctx = Context::new();
    let mut a = Node::button("a");
    a.rect = Rect::new(65535, 0, 4, 3);
    ctx.add(a);
    let ui = UiState::new();
    let mut input = Input::new();
    assert!(interactions_fit(&ctx, Some(&input), &ui));
    input.push_mouse(MouseEvent { kind: MouseKind::Press(MouseButton::Left), col: 1, row: 1 });
    assert!(!interactions_fit(&ctx, Some(&input), &ui));
    assert!(interactions_fit(&ctx, None, &ui));
    let mut ctx = Context::new();
    let mut f = Node::text_input("name", 8);
    f.rect = Rect::new(0, 0, 10, 3);
    let i_f = ctx.add(f);
    if let Content::TextInput { cursor, .. } = &mut ctx.node_mut(i_f).unwrap().content {
        *cursor = 3;
    }
    let mut input = Input::new();
    assert!(interactions_fit(&ctx, Some(&input), &ui));
    input.press(KeyCode::Backspace);
    assert!(!interactions_fit(&ctx, Some(&input), &ui));
}

#[test]
fn wide_clip_is_accepted_and_lifted() {
    let mut t = Term::new(Some((4, 1)));
    t.set_clip(2, 0, 65535, 1);
    t.move_to(0, 0).print_char('a');
    t.clear_clip();
    t.move_to(3, 0).print_char('b');
    let out = String::from_utf8(t.flush()).unwrap();
    assert!(!out.contains('a'));
    assert!(out.contains('b'));
}

#[test]
fn requeued_bytes_go_out_with_the_next_flush() {
    let mut t = Term::new(Some((1, 1)));
    t.print("x");
    let first = t.flush();
    t.requeue(first.clone());
    assert_eq!(t.flush(), first);
    assert_eq!(t.flush(), Vec::<u8>::new());
}

#[test]
fn frame_guard_skips_hidden_nodes() {
    let mut ctx = Context::new();
    let mut b = Node::button("b").hidden();
    b.rect = Rect::new(0, 65530, 4, 10);
    ctx.add(b);
    assert!(frame_fits(&ctx, &still(1)));
}

#[test]
fn intro_cells_center_the_tree_and_title() {
    let (tree, title) = intro_cells(80, 25);
    // The crown's first row starts two columns into the 21-column tree at column 29.
    assert_eq!(tree[0], (6, 31, '\\', (100, 80, 60)));
    assert_eq!(title[0], (20, 22, '_', (140, 135, 125)));
    assert!(tree.iter().all(|c| c.2 != ' '));
    assert_eq!(tree.last().unwrap().3, (75, 60, 45));
}
