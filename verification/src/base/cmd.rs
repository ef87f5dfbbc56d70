use vstd::prelude::*;

use super::context::{Context, CtxView, depth_within, spec_add, spec_add_child, spec_remove, spec_remove_rec};
use super::node::{Node, NodeId, NodeView};
use super::store::Store;

verus! {

/// A deferred tree mutation.
pub enum Command {
    Create(Node),
    CreateChild(NodeId, Node),
    Remove(NodeId),
    RemoveRecursive(NodeId),
}

/// Mathematical view of a deferred tree mutation.
pub enum CommandView {
    Create(NodeView),
    CreateChild(NodeId, NodeView),
    Remove(NodeId),
    RemoveRecursive(NodeId),
}

impl View for Command {
    type V = CommandView;

    open spec fn view(&self) -> CommandView {
        match self {
            Command::Create(n) => CommandView::Create(n@),
            Command::CreateChild(p, n) => CommandView::CreateChild(*p, n@),
            Command::Remove(id) => CommandView::Remove(*id),
            Command::RemoveRecursive(id) => CommandView::RemoveRecursive(*id),
        }
    }
}

/// Whether `c` can run on `v` (the direct call would not fail).
pub open spec fn command_ok(v: CtxView, c: CommandView) -> bool {
    match c {
        CommandView::Create(_) => v.free.len() > 0 || v.next_id < u32::MAX,
        CommandView::CreateChild(p, _) => (v.free.len() > 0 || v.next_id < u32::MAX) && (p
            < v.slots.len() || (v.free.len() == 0 && p == v.next_id)),
        CommandView::Remove(_) => true,
        CommandView::RemoveRecursive(id) => exists|d: nat| depth_within(v, id, d),
    }
}

/// The context after running `c` directly.
pub open spec fn run_command(v: CtxView, c: CommandView) -> CtxView {
    match c {
        CommandView::Create(n) => spec_add(v, n),
        CommandView::CreateChild(p, n) => spec_add_child(v, p, n),
        CommandView::Remove(id) => spec_remove(v, id),
        CommandView::RemoveRecursive(id) => spec_remove_rec(v, id, choose|d: nat| depth_within(v, id, d)),
    }
}

/// Whether every command of `cs`, run in order from `v`, can run.
pub open spec fn commands_ok(v: CtxView, cs: Seq<CommandView>) -> bool
    decreases cs.len(),
{
    cs.len() == 0 || (command_ok(v, cs[0]) && commands_ok(run_command(v, cs[0]), cs.skip(1)))
}

/// The context after running each command of `cs` in order from `v`.
pub open spec fn run_commands(v: CtxView, cs: Seq<CommandView>) -> CtxView
    decreases cs.len(),
{
    if cs.len() == 0 {
        v
    } else {
        run_commands(run_command(v, cs[0]), cs.skip(1))
    }
}

/// Deferred command buffer for tree mutations.
pub struct Cmd {
    queue: Vec<Command>,
}

impl Store for Cmd {}

impl View for Cmd {
    type V = Seq<CommandView>;

    closed spec fn view(&self) -> Seq<CommandView> {
        self.queue@.map_values(|c: Command| c@)
    }
}

impl Cmd {
    pub fn new() -> (c: Self)
        ensures
            c@ == Seq::<CommandView>::empty(),
    {
        let c = Cmd { queue: Vec::new() };
        assert(c@ =~= Seq::<CommandView>::empty());
        c
    }

    pub fn is_empty(&self) -> (r: bool)
        ensures
            r == (self@.len() == 0),
    {
        self.queue.len() == 0
    }

    fn push(&mut self, c: Command)
        ensures
            final(self)@ == old(self)@.push(c@),
    {
        self.queue.push(c);
        assert(self@ =~= old(self)@.push(c@));
    }

    /// Deferred node creation.
    pub fn create(&mut self, node: Node)
        ensures
            final(self)@ == old(self)@.push(CommandView::Create(node@)),
    {
        self.push(Command::Create(node));
    }

    /// Deferred child node creation.
    pub fn create_child(&mut self, parent: NodeId, node: Node)
        ensures
            final(self)@ == old(self)@.push(CommandView::CreateChild(parent, node@)),
    {
        self.push(Command::CreateChild(parent, node));
    }

    /// Deferred node removal.
    pub fn remove(&mut self, id: NodeId)
        ensures
            final(self)@ == old(self)@.push(CommandView::Remove(id)),
    {
        self.push(Command::Remove(id));
    }

    /// Deferred recursive node removal.
    pub fn remove_recursive(&mut self, id: NodeId)
        ensures
            final(self)@ == old(self)@.push(CommandView::RemoveRecursive(id)),
    {
        self.push(Command::RemoveRecursive(id));
    }

    /// Runs the queued commands on `ctx` in the order they were queued, and
    /// empties the queue.
    pub fn apply(&mut self, ctx: &mut Context)
        requires
            old(ctx).wf(),
            commands_ok(old(ctx)@, old(self)@),
        ensures
            final(ctx).wf(),
            final(ctx)@ == run_commands(old(ctx)@, old(self)@),
            final(self)@ == Seq::<CommandView>::empty(),
    {
        let ghost cs0 = self@;
        let ghost v0 = ctx@;
        let mut queue: Vec<Command> = Vec::new();
        std::mem::swap(&mut queue, &mut self.queue);
        proof {
            assert(queue@.map_values(|c: Command| c@) =~= cs0);
        }
        while queue.len() > 0
            invariant
                ctx.wf(),
                self@ == Seq::<CommandView>::empty(),
                commands_ok(ctx@, queue@.map_values(|c: Command| c@)),
                run_commands(ctx@, queue@.map_values(|c: Command| c@)) == run_commands(v0, cs0),
            decreases queue.len(),
        {
            let ghost rest = queue@.map_values(|c: Command| c@);
            let c = queue.remove(0);
            proof {
                assert(rest[0] == c@);
                assert(rest.skip(1) =~= queue@.map_values(|c: Command| c@));
            }
            match c {
                Command::Create(node) => {
                    ctx.add(node);
                },
                Command::CreateChild(parent, node) => {
                    ctx.add_child(parent, node);
                },
                Command::Remove(id) => {
                    ctx.remove(id);
                },
                Command::RemoveRecursive(id) => {
                    ctx.remove_recursive(id);
                },
            }
        }
        proof {
            assert(queue@.map_values(|c: Command| c@) =~= Seq::<CommandView>::empty());
        }
    }
}

/// Running queued commands gives the same context as making the same calls
/// directly, one after the other: queueing one more command and applying
/// equals applying the queue and then running that command.
pub proof fn law_apply_is_sequential(v: CtxView, cs: Seq<CommandView>, c: CommandView)
    requires
        commands_ok(v, cs),
        command_ok(run_commands(v, cs), c),
    ensures
        commands_ok(v, cs.push(c)),
        run_commands(v, cs.push(c)) == run_command(run_commands(v, cs), c),
    decreases cs.len(),
{
    if cs.len() == 0 {
        assert(cs.push(c).skip(1) =~= Seq::<CommandView>::empty());
        assert(cs.push(c)[0] == c);
        assert(commands_ok(run_command(v, c), Seq::<CommandView>::empty()));
        assert(run_commands(run_command(v, c), Seq::<CommandView>::empty()) == run_command(v, c));
        assert(run_commands(v, cs) == v);
    } else {
        law_apply_is_sequential(run_command(v, cs[0]), cs.skip(1), c);
        assert(cs.push(c).skip(1) =~= cs.skip(1).push(c));
        assert(cs.push(c)[0] == cs[0]);
        assert(run_commands(v, cs) == run_commands(run_command(v, cs[0]), cs.skip(1)));
    }
}

} // verus!
