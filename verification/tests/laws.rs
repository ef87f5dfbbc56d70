use decay::base::app::{first_step, next_step, RunStep};
use decay::base::cmd::Cmd;
use decay::base::context::Context;
use decay::base::event::Events;
use decay::base::node::Node;
use decay::base::state::State;
use decay::base::system::Lifecycle;

#[test]
fn added_node_reads_back_with_its_id() {
    let mut ctx = Context::new();
    let a = ctx.add(Node::text("a"));
    let b = ctx.add(Node::button("b"));
    assert_eq!(ctx.node(a).unwrap().id, a);
    assert_eq!(ctx.node(b).unwrap().button_label(), Some("b"));
    assert_eq!(ctx.node(a).unwrap().text_value(), Some("a"));
}

#[test]
fn removed_id_is_handed_out_next_in_reverse_order() {
    let mut ctx = Context::new();
    let a = ctx.add(Node::text("a"));
    let b = ctx.add(Node::text("b"));
    ctx.remove(a);
    ctx.remove(b);
    assert_eq!(ctx.add(Node::text("c")), b);
    assert_eq!(ctx.add(Node::text("d")), a);
    assert_eq!(ctx.node_count(), 2);
}

#[test]
fn removing_a_child_unlinks_it_from_its_parent() {
    let mut ctx = Context::new();
    let root = ctx.add(Node::container());
    let a = ctx.add_child(root, Node::text("a"));
    let b = ctx.add_child(root, Node::text("b"));
    ctx.remove(a);
    assert_eq!(ctx.children(root), &[b]);
    assert!(ctx.node(b).is_some());
}

#[test]
fn removing_the_root_clears_it() {
    let mut ctx = Context::new();
    let root = ctx.add(Node::container());
    ctx.remove(root);
    assert_eq!(ctx.root(), None);
    let next = ctx.add(Node::container());
    assert_eq!(ctx.root(), Some(next));
}

#[test]
fn recursive_removal_spares_other_branches() {
    let mut ctx = Context::new();
    let root = ctx.add(Node::container());
    let left = ctx.add_child(root, Node::container());
    let right = ctx.add_child(root, Node::container());
    let leaf = ctx.add_child(left, Node::text("x"));
    let other = ctx.add_child(right, Node::text("y"));
    ctx.remove_recursive(left);
    assert!(ctx.node(left).is_none());
    assert!(ctx.node(leaf).is_none());
    assert!(ctx.node(right).is_some());
    assert!(ctx.node(other).is_some());
    assert_eq!(ctx.children(root), &[right]);
}

#[test]
fn events_are_forgotten_after_two_swaps() {
    let mut events = Events::<u8>::new();
    events.send(7);
    events.swap();
    assert_eq!(events.read(), &[7]);
    events.swap();
    assert_eq!(events.read(), &[]);
}

#[test]
fn commands_apply_in_order() {
    let mut ctx = Context::new();
    let mut cmd = Cmd::new();
    cmd.create(Node::container());
    cmd.create_child(0, Node::text("child"));
    cmd.remove_recursive(0);
    cmd.create(Node::text("last"));
    cmd.apply(&mut ctx);
    assert!(cmd.is_empty());
    assert_eq!(ctx.node_count(), 1);
    assert_eq!(ctx.node(0).unwrap().text_value(), Some("last"));
}

#[test]
fn state_tracks_changes() {
    let mut s = State::new(1u32);
    assert!(s.changed());
    s.clear_changed();
    assert!(!s.changed());
    s.set(1);
    assert!(!s.changed());
    assert_eq!(s.previous(), None);
    s.set(2);
    assert_eq!(*s.get(), 2);
    assert!(s.changed());
    assert_eq!(s.previous(), Some(&1));
}

#[test]
fn run_loop_leaves_on_exit_before_rendering() {
    let mut step = first_step();
    assert_eq!(step, RunStep::Stage(Lifecycle::Setup));
    step = next_step(step, true, false);
    step = next_step(step, true, false);
    assert_eq!(step, RunStep::FrameStart);
    step = next_step(step, true, false);
    assert_eq!(step, RunStep::Stage(Lifecycle::BeforeUpdate));
    step = next_step(step, true, false);
    assert_eq!(step, RunStep::Stage(Lifecycle::Update));
    assert_eq!(next_step(step, true, true), RunStep::Finish);
    assert_eq!(next_step(RunStep::Stage(Lifecycle::AfterSetup), false, false), RunStep::Finish);
    assert_eq!(next_step(RunStep::Stage(Lifecycle::AfterRender), true, false), RunStep::FrameEnd);
    assert_eq!(next_step(RunStep::FrameEnd, true, false), RunStep::FrameStart);
}

#[test]
fn state_get_returns_last_value_given() {
    let mut s = State::new(5u32);
    s.set(7);
    s.clear_changed();
    s.set(9);
    s.set(9);
    s.clear_changed();
    assert_eq!(*s.get(), 9);
    assert_eq!(s.previous(), Some(&7));
    assert!(!s.changed());
}
