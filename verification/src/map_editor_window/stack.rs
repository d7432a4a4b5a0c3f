//! The undo/redo stack.

use vstd::prelude::*;

use super::commands::{Command, CommandId, CommandView, Direction, ResolvedId, MAX_DEPTH};
use super::compile::{self, compile, AreaMutationBatch, Compiled, CompiledView, Outcome, OutcomeView};
use super::model::{ExitId, ExitUpdates, OperationId, RoomKey};
use super::mutation::{self, SlotId};
use crate::list;
use crate::text::{self, join2};

verus! {

/// What durable staging answers: the operation enqueued for each batch, if any,
/// or why nothing was staged.
pub type Reply = Result<Vec<Option<OperationId>>, String>;

/// A staging reply over sequences.
pub type ReplyView = Result<Seq<Option<OperationId>>, Seq<char>>;

/// The view of a staging reply.
pub open spec fn reply_view(reply: Reply) -> ReplyView {
    match reply {
        Ok(ids) => Ok(ids@),
        Err(error) => Err(error@),
    }
}

/// The undo and redo history. `undo` and `redo` both end with the command that
/// moves next.
pub struct CommandStack {
    pub undo: Vec<Command>,
    pub redo: Vec<Command>,
    pub next_id: CommandId,
    pub last_error: Option<String>,
}

/// The history over sequences.
pub struct StackView {
    pub undo: Seq<CommandView>,
    pub redo: Seq<CommandView>,
    pub next_id: CommandId,
    pub last_error: Option<Seq<char>>,
}

/// The views of a list of commands.
pub open spec fn commands_view(list: Seq<Command>) -> Seq<CommandView> {
    list.map_values(|command: Command| command@)
}

impl View for CommandStack {
    type V = StackView;

    open spec fn view(&self) -> StackView {
        StackView {
            undo: commands_view(self.undo@),
            redo: commands_view(self.redo@),
            next_id: self.next_id,
            last_error: text::opt_text(self.last_error),
        }
    }
}

/// The last command of a list is settled.
pub open spec fn top_ready(list: Seq<CommandView>) -> bool {
    list.len() > 0 && list.last().pending == 0
}

/// Every command of a list is well formed.
pub open spec fn all_wf(list: Seq<CommandView>) -> bool {
    forall|i: int| 0 <= i < list.len() ==> (#[trigger] list[i]).wf()
}

impl StackView {
    /// The history holds at most [`MAX_DEPTH`] commands, all well formed.
    pub open spec fn wf(self) -> bool {
        &&& self.undo.len() + self.redo.len() <= MAX_DEPTH
        &&& all_wf(self.undo)
        &&& all_wf(self.redo)
    }

    pub open spec fn can_undo(self) -> bool {
        top_ready(self.undo)
    }

    pub open spec fn can_redo(self) -> bool {
        top_ready(self.redo)
    }
}

/// The operations that were enqueued.
pub open spec fn enqueued(ids: Seq<Option<OperationId>>) -> Seq<OperationId> {
    list::collect(
        ids,
        |id: Option<OperationId>| match id {
            Some(id) => seq![id],
            None => Seq::empty(),
        },
    )
}

/// The command after its compiled direction was answered: staged, it takes over
/// the compiled slot table and pending count; refused, it keeps its own and
/// holds the error.
pub open spec fn settled(command: CommandView, compiled: CompiledView, reply: ReplyView) -> CommandView {
    match reply {
        Ok(ids) => CommandView {
            resolved_ids: compiled.resolved_ids,
            pending: compiled.pending,
            operation_ids: enqueued(ids),
            application_error: None,
            ..command
        },
        Err(error) => CommandView {
            operation_ids: Seq::empty(),
            application_error: Some(
                "map gesture failed validation or durable enqueue: "@ + error,
            ),
            ..command
        },
    }
}

/// What is reported after staging was answered.
pub open spec fn reported(compiled: CompiledView, reply: ReplyView) -> Seq<OutcomeView> {
    match reply {
        Ok(_) => compiled.outcomes,
        Err(_) => Seq::empty(),
    }
}

/// The command with its error taken out.
pub open spec fn quiet(command: CommandView) -> CommandView {
    CommandView { application_error: None, ..command }
}

/// Whether `command` merges into the last undo entry: both are settled edits of
/// the same field.
pub open spec fn merges(undo: Seq<CommandView>, command: CommandView) -> bool {
    &&& command.coalesce is Some
    &&& command.pending == 0
    &&& top_ready(undo)
    &&& undo.last().coalesce == command.coalesce
}

/// An undo entry that took in a later edit of the same field: the prior state
/// it restores is kept, the new state it reinstates is the later one.
pub open spec fn merged(top: CommandView, command: CommandView) -> CommandView {
    CommandView {
        redo: command.redo,
        operation_ids: top.operation_ids + command.operation_ids,
        ..top
    }
}

/// A list with one more element, cut to its last `MAX_DEPTH` elements.
pub open spec fn bounded_push(undo: Seq<CommandView>, command: CommandView) -> Seq<CommandView> {
    let longer = undo.push(command);
    if longer.len() > MAX_DEPTH {
        longer.drop_first()
    } else {
        longer
    }
}

/// The command as the stack numbers it.
pub open spec fn numbered(stack: StackView, command: CommandView) -> CommandView {
    CommandView { id: stack.next_id, ..command }
}

/// The history after a new command was applied and answered.
pub open spec fn after_push(
    stack: StackView,
    command: CommandView,
    compiled: CompiledView,
    reply: ReplyView,
) -> StackView {
    let next_id = (stack.next_id + 1) as u64;
    let done = settled(numbered(stack, command), compiled, reply);
    match reply {
        Ok(_) => StackView {
            undo: if merges(stack.undo, done) {
                stack.undo.drop_last().push(merged(stack.undo.last(), done))
            } else {
                bounded_push(stack.undo, done)
            },
            redo: Seq::empty(),
            next_id,
            last_error: None,
        },
        Err(_) => StackView {
            undo: stack.undo,
            redo: Seq::empty(),
            next_id,
            last_error: done.application_error,
        },
    }
}

/// The history after the last command was undone and answered.
pub open spec fn after_undo(stack: StackView, compiled: CompiledView, reply: ReplyView) -> StackView {
    let done = settled(stack.undo.last(), compiled, reply);
    match reply {
        Ok(_) => StackView {
            undo: stack.undo.drop_last(),
            redo: stack.redo.push(done),
            last_error: None,
            ..stack
        },
        Err(_) => StackView {
            undo: stack.undo.drop_last().push(quiet(done)),
            last_error: done.application_error,
            ..stack
        },
    }
}

/// The history after the last undone command was redone and answered.
pub open spec fn after_redo(stack: StackView, compiled: CompiledView, reply: ReplyView) -> StackView {
    let done = settled(stack.redo.last(), compiled, reply);
    match reply {
        Ok(_) => StackView {
            undo: stack.undo.push(done),
            redo: stack.redo.drop_last(),
            last_error: None,
            ..stack
        },
        Err(_) => StackView {
            redo: stack.redo.drop_last().push(quiet(done)),
            last_error: done.application_error,
            ..stack
        },
    }
}

/// The history when nothing moved.
pub open spec fn unmoved(stack: StackView) -> StackView {
    StackView { last_error: None, ..stack }
}

/// Keeps the operations that were enqueued.
fn keep_enqueued(ids: Vec<Option<OperationId>>) -> (kept: Vec<OperationId>)
    ensures
        kept@ == enqueued(ids@),
{
    let ghost piece = |id: Option<OperationId>|
        match id {
            Some(id) => seq![id],
            None => Seq::empty(),
        };
    let mut kept: Vec<OperationId> = Vec::new();
    assert(ids@.take(0) =~= Seq::empty());
    for i in 0..ids.len()
        invariant
            piece == (|id: Option<OperationId>|
                match id {
                    Some(id) => seq![id],
                    None => Seq::empty(),
                }),
            kept@ == list::collect(ids@.take(i as int), piece),
    {
        proof {
            list::lemma_collect_step(ids@, piece, i as int);
        }
        if let Some(id) = ids[i] {
            kept.push(id);
        }
    }
    assert(ids@.take(ids.len() as int) =~= ids@);
    kept
}

/// Settles a command by the reply to its compiled direction; returns what to
/// report and whether it was staged.
pub fn settle(command: &mut Command, state: Compiled, reply: Reply) -> (r: (Vec<Outcome>, bool))
    ensures
        final(command)@ == settled(old(command)@, state@, reply_view(reply)),
        compile::outcomes_view(r.0@) == reported(state@, reply_view(reply)),
        r.1 == (reply is Ok),
{
    match reply {
        Ok(ids) => {
            command.resolved_ids = state.resolved_ids;
            command.pending = state.pending;
            command.operation_ids = keep_enqueued(ids);
            command.application_error = None;
            (state.outcomes, true)
        },
        Err(error) => {
            command.operation_ids = Vec::new();
            command.application_error = Some(
                join2("map gesture failed validation or durable enqueue: ", error.as_str()),
            );
            let outcomes: Vec<Outcome> = Vec::new();
            assert(compile::outcomes_view(outcomes@) =~= Seq::empty());
            assert(command@.operation_ids =~= Seq::empty());
            (outcomes, false)
        },
    }
}

/// The staging call answered `reply` to exactly the batches of `compiled`.
pub open spec fn answered<S: FnOnce(Vec<AreaMutationBatch>) -> Reply>(
    submit: S,
    compiled: CompiledView,
    reply: Reply,
) -> bool {
    exists|batches: Vec<AreaMutationBatch>|
        compile::batches_view(batches@) == compiled.batches && #[trigger] submit.ensures(
            (batches,),
            reply,
        )
}

/// A direction of `before` was applied with the staging call answering `reply`,
/// leaving `after`, reporting `outcomes`, and having `staged` the batches.
pub open spec fn applied<S: FnOnce(Vec<AreaMutationBatch>) -> Reply>(
    submit: S,
    before: CommandView,
    state: CompiledView,
    after: CommandView,
    outcomes: Seq<OutcomeView>,
    staged: bool,
    reply: Reply,
) -> bool {
    &&& answered(submit, state, reply)
    &&& after == settled(before, state, reply_view(reply))
    &&& outcomes == reported(state, reply_view(reply))
    &&& staged == (reply is Ok)
}

/// Compiles one direction of a command, hands the batches to `submit`, and
/// settles the command by the reply.
pub fn apply<S: FnOnce(Vec<AreaMutationBatch>) -> Reply>(
    command: &mut Command,
    direction: Direction,
    fresh: &Vec<u128>,
    limit: usize,
    submit: S,
) -> (r: (Vec<Outcome>, bool))
    requires
        limit > 0,
        old(command).wf(),
        old(command)@.mutations(direction).len() <= fresh.len(),
        old(command).pending + old(command)@.mutations(direction).len() <= usize::MAX,
        forall|batches: Vec<AreaMutationBatch>| #[trigger] submit.requires((batches,)),
    ensures
        exists|reply: Reply| #[trigger]
            applied(
                submit,
                old(command)@,
                compile::compiled_direction(old(command)@, direction, fresh@, limit as int),
                final(command)@,
                compile::outcomes_view(r.0@),
                r.1,
                reply,
            ),
        final(command).wf(),
{
    let mut state = compile(command, direction, fresh, limit);
    let ghost compiled = state@;
    let ghost before = command@;
    let batches = state.batches;
    state.batches = Vec::new();
    let reply = submit(batches);
    assert(answered(submit, compiled, reply));
    let ghost given = reply;
    let r = settle(command, state, reply);
    assert(applied(submit, before, compiled, command@, compile::outcomes_view(r.0@), r.1, given));
    r
}

/// A new command was applied and recorded with the staging call answering
/// `reply`.
pub open spec fn pushed<S: FnOnce(Vec<AreaMutationBatch>) -> Reply>(
    submit: S,
    before: StackView,
    command: CommandView,
    state: CompiledView,
    after: StackView,
    outcomes: Seq<OutcomeView>,
    operations: Seq<OperationId>,
    reply: Reply,
) -> bool {
    &&& answered(submit, state, reply)
    &&& after == after_push(before, command, state, reply_view(reply))
    &&& outcomes == reported(state, reply_view(reply))
    &&& operations == match reply {
        Ok(ids) => enqueued(ids@),
        Err(_) => Seq::empty(),
    }
}

/// The last command of one side was moved with the staging call answering
/// `reply`.
pub open spec fn moved<S: FnOnce(Vec<AreaMutationBatch>) -> Reply>(
    submit: S,
    before: StackView,
    direction: Direction,
    state: CompiledView,
    after: StackView,
    outcomes: Seq<OutcomeView>,
    reply: Reply,
) -> bool {
    &&& answered(submit, state, reply)
    &&& after == match direction {
        Direction::Undo => after_undo(before, state, reply_view(reply)),
        Direction::Redo => after_redo(before, state, reply_view(reply)),
    }
    &&& outcomes == reported(state, reply_view(reply))
}

impl CommandStack {
    pub open spec fn wf(self) -> bool {
        self@.wf()
    }

    /// An empty history.
    pub fn new() -> (stack: Self)
        ensures
            stack.wf(),
            stack@ == (StackView {
                undo: Seq::empty(),
                redo: Seq::empty(),
                next_id: 0,
                last_error: None,
            }),
    {
        let stack = CommandStack { undo: Vec::new(), redo: Vec::new(), next_id: 0, last_error: None };
        assert(stack@.undo =~= Seq::empty());
        assert(stack@.redo =~= Seq::empty());
        stack
    }

    pub fn can_undo(&self) -> (ready: bool)
        ensures
            ready == self@.can_undo(),
    {
        self.undo.len() > 0 && self.undo[self.undo.len() - 1].pending == 0
    }

    pub fn can_redo(&self) -> (ready: bool)
        ensures
            ready == self@.can_redo(),
    {
        self.redo.len() > 0 && self.redo[self.redo.len() - 1].pending == 0
    }

    /// Drops all history (used when the edited area changes or is deleted, or
    /// when the viewer loses edit access to it).
    pub fn clear(&mut self)
        ensures
            final(self)@ == (StackView { undo: Seq::empty(), redo: Seq::empty(), ..old(self)@ }),
            final(self).wf(),
    {
        self.undo = Vec::new();
        self.redo = Vec::new();
        assert(self@.undo =~= Seq::empty());
        assert(self@.redo =~= Seq::empty());
    }

    /// Whether the stack holds no history in either direction.
    pub fn is_empty(&self) -> (empty: bool)
        ensures
            empty == (self@.undo.len() == 0 && self@.redo.len() == 0),
    {
        self.undo.len() == 0 && self.redo.len() == 0
    }

    /// Takes the most recent validation or enqueue error.
    pub fn take_last_error(&mut self) -> (error: Option<String>)
        ensures
            text::opt_text(error) == old(self)@.last_error,
            final(self)@ == (StackView { last_error: None, ..old(self)@ }),
    {
        self.last_error.take()
    }

    /// The id assigned to the most recently pushed command.
    pub fn last_command_id(&self) -> (id: Option<CommandId>)
        ensures
            id == if self@.next_id > 0 {
                Some((self@.next_id - 1) as u64)
            } else {
                None
            },
    {
        if self.next_id > 0 {
            Some(self.next_id - 1)
        } else {
            None
        }
    }

    /// How many fresh ids the next undo may draw on.
    pub fn undo_size(&self) -> (size: usize)
        ensures
            size == if self@.undo.len() > 0 {
                self@.undo.last().undo.len()
            } else {
                0
            },
    {
        if self.undo.len() > 0 {
            self.undo[self.undo.len() - 1].undo.len()
        } else {
            0
        }
    }

    /// How many fresh ids the next redo may draw on.
    pub fn redo_size(&self) -> (size: usize)
        ensures
            size == if self@.redo.len() > 0 {
                self@.redo.last().redo.len()
            } else {
                0
            },
    {
        if self.redo.len() > 0 {
            self.redo[self.redo.len() - 1].redo.len()
        } else {
            0
        }
    }

    /// Applies and records a new command, returning what to report.
    pub fn push_and_apply<S: FnOnce(Vec<AreaMutationBatch>) -> Reply>(
        &mut self,
        command: Command,
        fresh: &Vec<u128>,
        limit: usize,
        submit: S,
    ) -> (outcomes: Vec<Outcome>)
        requires
            limit > 0,
            old(self).wf(),
            old(self).next_id < u64::MAX,
            command.wf(),
            command@.redo.len() <= fresh.len(),
            command.pending + command@.redo.len() <= usize::MAX,
            forall|batches: Vec<AreaMutationBatch>| #[trigger] submit.requires((batches,)),
        ensures
            exists|operations: Seq<OperationId>, reply: Reply| #[trigger]
                pushed(
                    submit,
                    old(self)@,
                    command@,
                    compile::compiled_direction(
                        numbered(old(self)@, command@),
                        Direction::Redo,
                        fresh@,
                        limit as int,
                    ),
                    final(self)@,
                    compile::outcomes_view(outcomes@),
                    operations,
                    reply,
                ),
            final(self).wf(),
    {
        let (outcomes, _) = self.push_and_apply_tracked(command, fresh, limit, submit);
        outcomes
    }

    /// Applies a new command's redo mutations and records it for undo, returning
    /// what to report and the operations enqueued. Clears the redo stack;
    /// coalesces into the top entry when keys match.
    pub fn push_and_apply_tracked<S: FnOnce(Vec<AreaMutationBatch>) -> Reply>(
        &mut self,
        command: Command,
        fresh: &Vec<u128>,
        limit: usize,
        submit: S,
    ) -> (r: (Vec<Outcome>, Vec<OperationId>))
        requires
            limit > 0,
            old(self).wf(),
            old(self).next_id < u64::MAX,
            command.wf(),
            command@.redo.len() <= fresh.len(),
            command.pending + command@.redo.len() <= usize::MAX,
            forall|batches: Vec<AreaMutationBatch>| #[trigger] submit.requires((batches,)),
        ensures
            exists|reply: Reply| #[trigger]
                pushed(
                    submit,
                    old(self)@,
                    command@,
                    compile::compiled_direction(
                        numbered(old(self)@, command@),
                        Direction::Redo,
                        fresh@,
                        limit as int,
                    ),
                    final(self)@,
                    compile::outcomes_view(r.0@),
                    r.1@,
                    reply,
                ),
            final(self).wf(),
    {
        let ghost before = self@;
        let ghost given = command@;
        let mut entry = command;
        entry.id = self.next_id;
        assert(entry@ == numbered(before, given));
        self.redo = Vec::new();
        assert(self@.redo =~= Seq::empty());
        self.next_id = self.next_id + 1;
        let ghost state = compile::compiled_direction(
            numbered(before, given),
            Direction::Redo,
            fresh@,
            limit as int,
        );
        let (outcomes, staged) = apply(&mut entry, Direction::Redo, fresh, limit, submit);
        let ghost reply = choose|reply: Reply| #[trigger]
            applied(
                submit,
                numbered(before, given),
                state,
                entry@,
                compile::outcomes_view(outcomes@),
                staged,
                reply,
            );
        let ghost done = entry@;
        if !staged {
            self.last_error = entry.application_error.take();
            let operations: Vec<OperationId> = Vec::new();
            assert(operations@ =~= Seq::empty());
            assert(pushed(
                submit,
                before,
                given,
                state,
                self@,
                compile::outcomes_view(outcomes@),
                operations@,
                reply,
            ));
            let r = (outcomes, operations);
            assert(r.0@ == outcomes@ && r.1@ == operations@);
            return r;
        }
        let operations = copy_ids(&entry.operation_ids);
        entry.application_error = None;
        let depth: usize = self.undo.len();
        let merging = match &entry.coalesce {
            Some(key) => entry.pending == 0 && depth > 0 && self.undo[depth - 1].pending == 0
                && match &self.undo[depth - 1].coalesce {
                Some(top) => top.same(key),
                None => false,
            },
            None => false,
        };
        assert(merging == merges(before.undo, done));
        proof {
            // Commands that stay keep their place and their form.
            assert(all_wf(before.undo));
            assert(done.wf());
        }
        if merging {
            match self.undo.pop() {
                Some(top) => {
                    let ghost kept = top@;
                    let mut top = top;
                    let mut later = entry;
                    top.redo = later.redo;
                    top.operation_ids.append(&mut later.operation_ids);
                    self.undo.push(top);
                    proof {
                        assert(before.undo.last() == kept);
                        assert(self@.undo =~= before.undo.drop_last().push(merged(kept, done)));
                        compile::lemma_compiled_bounds(
                            compile::CompiledView {
                                batches: Seq::empty(),
                                outcomes: Seq::empty(),
                                resolved_ids: given.resolved_ids,
                                pending: given.pending,
                            },
                            given.redo,
                            fresh@,
                            before.next_id,
                            limit as int,
                        );
                        lemma_no_creations(given.redo, kept.resolved_ids.len() as int);
                        assert forall|i: int| 0 <= i < self@.undo.len() implies (
                        #[trigger] self@.undo[i]).wf() by {
                            if i < self@.undo.len() - 1 {
                                assert(self@.undo[i] == before.undo[i]);
                            } else {
                                assert(before.undo[i].wf());
                            }
                        }
                    }
                },
                None => {},
            }
        } else {
            self.undo.push(entry);
            assert(self@.undo =~= before.undo.push(done));
            assert forall|i: int| 0 <= i < self@.undo.len() implies (#[trigger] self@.undo[i]).wf() by {
                if i < before.undo.len() {
                    assert(self@.undo[i] == before.undo[i]);
                }
            }
            if self.undo.len() > MAX_DEPTH {
                let ghost longer = self@.undo;
                self.undo.remove(0);
                assert(self@.undo =~= longer.drop_first());
                assert forall|i: int| 0 <= i < self@.undo.len() implies (
                #[trigger] self@.undo[i]).wf() by {
                    assert(self@.undo[i] == longer[i + 1]);
                }
            }
        }
        self.last_error = None;
        assert(pushed(
            submit,
            before,
            given,
            state,
            self@,
            compile::outcomes_view(outcomes@),
            operations@,
            reply,
        ));
        let r = (outcomes, operations);
        assert(r.0@ == outcomes@ && r.1@ == operations@);
        r
    }

    /// Undoes the last command, unless a creation of it is still pending.
    pub fn undo<S: FnOnce(Vec<AreaMutationBatch>) -> Reply>(
        &mut self,
        fresh: &Vec<u128>,
        limit: usize,
        submit: S,
    ) -> (outcomes: Vec<Outcome>)
        requires
            limit > 0,
            old(self).wf(),
            old(self)@.can_undo() ==> old(self)@.undo.last().undo.len() <= fresh.len(),
            forall|batches: Vec<AreaMutationBatch>| #[trigger] submit.requires((batches,)),
        ensures
            !old(self)@.can_undo() ==> final(self)@ == unmoved(old(self)@) && outcomes@.len() == 0,
            old(self)@.can_undo() ==> exists|reply: Reply| #[trigger]
                moved(
                    submit,
                    old(self)@,
                    Direction::Undo,
                    compile::compiled_direction(
                        old(self)@.undo.last(),
                        Direction::Undo,
                        fresh@,
                        limit as int,
                    ),
                    final(self)@,
                    compile::outcomes_view(outcomes@),
                    reply,
                ),
            final(self).wf(),
    {
        let ghost before = self@;
        self.last_error = None;
        if !self.can_undo() {
            return Vec::new();
        }
        match self.undo.pop() {
            Some(command) => {
                let mut command = command;
                let ghost given = command@;
                assert(given == before.undo.last());
                assert(before.undo[before.undo.len() - 1].wf());
                assert(self@.undo =~= before.undo.drop_last());
                let ghost state = compile::compiled_direction(
                    given,
                    Direction::Undo,
                    fresh@,
                    limit as int,
                );
                let (outcomes, staged) = apply(&mut command, Direction::Undo, fresh, limit, submit);
                let ghost reply = choose|reply: Reply| #[trigger]
                    applied(
                        submit,
                        given,
                        state,
                        command@,
                        compile::outcomes_view(outcomes@),
                        staged,
                        reply,
                    );
                self.last_error = command.application_error.take();
                if staged {
                    self.redo.push(command);
                    assert(self@.redo =~= before.redo.push(command@));
                } else {
                    self.undo.push(command);
                    assert(self@.undo =~= before.undo.drop_last().push(command@));
                }
                proof {
                    assert forall|i: int| 0 <= i < self@.undo.len() implies (
                    #[trigger] self@.undo[i]).wf() by {
                        if i < before.undo.len() - 1 {
                            assert(self@.undo[i] == before.undo[i]);
                        }
                    }
                    assert forall|i: int| 0 <= i < self@.redo.len() implies (
                    #[trigger] self@.redo[i]).wf() by {
                        if i < before.redo.len() {
                            assert(self@.redo[i] == before.redo[i]);
                        }
                    }
                    assert(moved(
                        submit,
                        before,
                        Direction::Undo,
                        state,
                        self@,
                        compile::outcomes_view(outcomes@),
                        reply,
                    ));
                }
                outcomes
            },
            None => Vec::new(),
        }
    }

    /// Redoes the last undone command, unless a creation of it is still pending.
    pub fn redo<S: FnOnce(Vec<AreaMutationBatch>) -> Reply>(
        &mut self,
        fresh: &Vec<u128>,
        limit: usize,
        submit: S,
    ) -> (outcomes: Vec<Outcome>)
        requires
            limit > 0,
            old(self).wf(),
            old(self)@.can_redo() ==> old(self)@.redo.last().redo.len() <= fresh.len(),
            forall|batches: Vec<AreaMutationBatch>| #[trigger] submit.requires((batches,)),
        ensures
            !old(self)@.can_redo() ==> final(self)@ == unmoved(old(self)@) && outcomes@.len() == 0,
            old(self)@.can_redo() ==> exists|reply: Reply| #[trigger]
                moved(
                    submit,
                    old(self)@,
                    Direction::Redo,
                    compile::compiled_direction(
                        old(self)@.redo.last(),
                        Direction::Redo,
                        fresh@,
                        limit as int,
                    ),
                    final(self)@,
                    compile::outcomes_view(outcomes@),
                    reply,
                ),
            final(self).wf(),
    {
        let ghost before = self@;
        self.last_error = None;
        if !self.can_redo() {
            return Vec::new();
        }
        match self.redo.pop() {
            Some(command) => {
                let mut command = command;
                let ghost given = command@;
                assert(given == before.redo.last());
                assert(before.redo[before.redo.len() - 1].wf());
                assert(self@.redo =~= before.redo.drop_last());
                let ghost state = compile::compiled_direction(
                    given,
                    Direction::Redo,
                    fresh@,
                    limit as int,
                );
                let (outcomes, staged) = apply(&mut command, Direction::Redo, fresh, limit, submit);
                let ghost reply = choose|reply: Reply| #[trigger]
                    applied(
                        submit,
                        given,
                        state,
                        command@,
                        compile::outcomes_view(outcomes@),
                        staged,
                        reply,
                    );
                self.last_error = command.application_error.take();
                if staged {
                    self.undo.push(command);
                    assert(self@.undo =~= before.undo.push(command@));
                } else {
                    self.redo.push(command);
                    assert(self@.redo =~= before.redo.drop_last().push(command@));
                }
                proof {
                    assert forall|i: int| 0 <= i < self@.undo.len() implies (
                    #[trigger] self@.undo[i]).wf() by {
                        if i < before.undo.len() {
                            assert(self@.undo[i] == before.undo[i]);
                        }
                    }
                    assert forall|i: int| 0 <= i < self@.redo.len() implies (
                    #[trigger] self@.redo[i]).wf() by {
                        if i < before.redo.len() - 1 {
                            assert(self@.redo[i] == before.redo[i]);
                        }
                    }
                    assert(moved(
                        submit,
                        before,
                        Direction::Redo,
                        state,
                        self@,
                        compile::outcomes_view(outcomes@),
                        reply,
                    ));
                }
                outcomes
            },
            None => Vec::new(),
        }
    }
}

/// Mutations without creations fill no slot.
proof fn lemma_no_creations(mutations: Seq<mutation::MutationView>, n: int)
    requires
        compile::creations(mutations) == 0,
    ensures
        mutation::fills_in(mutations, n),
    decreases mutations.len(),
{
    if mutations.len() > 0 {
        lemma_creations_not_negative(mutations.drop_last());
        lemma_no_creations(mutations.drop_last(), n);
        assert forall|i: int| 0 <= i < mutations.len() implies (mutation::filled_slot(
            #[trigger] mutations[i],
        ) matches Some(slot) ==> slot < n) by {
            if i < mutations.len() - 1 {
                assert(mutations[i] == mutations.drop_last()[i]);
            }
        }
    }
}

proof fn lemma_creations_not_negative(mutations: Seq<mutation::MutationView>)
    ensures
        compile::creations(mutations) >= 0,
    decreases mutations.len(),
{
    if mutations.len() > 0 {
        lemma_creations_not_negative(mutations.drop_last());
    }
}

/// A copy of a list of operation ids.
fn copy_ids(ids: &Vec<OperationId>) -> (copy: Vec<OperationId>)
    ensures
        copy@ == ids@,
{
    let mut copy: Vec<OperationId> = Vec::new();
    for i in 0..ids.len()
        invariant
            copy@ == ids@.take(i as int),
    {
        copy.push(ids[i]);
        assert(ids@.take(i + 1) =~= ids@.take(i as int).push(ids@[i as int]));
    }
    assert(ids@.take(ids.len() as int) =~= ids@);
    copy
}

/// What an exit update answers: the operation enqueued, if any, or why it was
/// refused.
pub type UpdateReply = Result<Option<OperationId>, String>;

/// The command after an exit update that follows a creation was answered.
pub open spec fn followed(command: CommandView, reply: UpdateReply) -> CommandView {
    match reply {
        Ok(Some(id)) => CommandView { operation_ids: command.operation_ids.push(id), ..command },
        Ok(None) => command,
        Err(error) => CommandView {
            application_error: Some(
                "exit follow-up update failed validation or durable enqueue: "@ + error@,
            ),
            ..command
        },
    }
}

/// The command with one completion fewer pending.
pub open spec fn completed(command: CommandView) -> CommandView {
    CommandView {
        pending: if command.pending > 0 {
            command.pending - 1
        } else {
            0
        },
        ..command
    }
}

/// The command an outcome belongs to.
pub open spec fn outcome_command(outcome: OutcomeView) -> CommandId {
    match outcome {
        Outcome::Exit { command, .. } => command,
        Outcome::Label { command, .. } => command,
        Outcome::Shape { command, .. } => command,
    }
}

/// The slot an outcome fills and the id it fills it with, when the creation
/// succeeded.
pub open spec fn outcome_id(outcome: OutcomeView) -> Option<(SlotId, ResolvedId)> {
    match outcome {
        Outcome::Exit { slot, result: Ok(id), .. } => Some((slot, ResolvedId::Exit(id))),
        Outcome::Label { slot, result: Ok(id), .. } => Some((slot, ResolvedId::Label(id))),
        Outcome::Shape { slot, result: Ok(id), .. } => Some((slot, ResolvedId::Shape(id))),
        _ => None,
    }
}

/// The exit update an outcome still asks for.
pub open spec fn outcome_follow_up(outcome: OutcomeView) -> Option<(RoomKey, ExitId, ExitUpdates<Seq<char>>)> {
    match outcome {
        Outcome::Exit { room_key, follow_up: Some(updates), result: Ok(id), .. } => Some(
            (room_key, id, updates),
        ),
        _ => None,
    }
}

/// The command after one of its creations completed, before any exit update
/// that follows.
pub open spec fn resolved(command: CommandView, outcome: OutcomeView) -> CommandView {
    let command = completed(command);
    match outcome_id(outcome) {
        Some((slot, id)) => command.seeded(slot as int, id),
        None => command,
    }
}

/// The command after one of its creations completed, and after any exit update
/// that follows was answered by `update`.
pub open spec fn resolved_with<U: FnOnce(RoomKey, ExitId, ExitUpdates) -> UpdateReply>(
    update: U,
    before: CommandView,
    outcome: OutcomeView,
    after: CommandView,
) -> bool {
    match outcome_follow_up(outcome) {
        Some((room_key, id, updates)) => exists|body: ExitUpdates, reply: UpdateReply|
            body@ == updates && #[trigger] update.ensures((room_key, id, body), reply) && after
                == followed(resolved(before, outcome), reply),
        None => after == resolved(before, outcome),
    }
}

/// The first command with the given id, in the undo history before the redo
/// history: which side it is on, and its place there.
pub open spec fn command_place(stack: StackView, id: CommandId) -> Option<(Direction, int)> {
    let matching = |command: CommandView| command.id == id;
    match list::place(stack.undo, matching) {
        Some(i) => Some((Direction::Undo, i)),
        None => match list::place(stack.redo, matching) {
            Some(i) => Some((Direction::Redo, i)),
            None => None,
        },
    }
}

/// The command that an outcome is of, if it is still there, has the slot that the outcome
/// fills.
pub open spec fn resolvable(stack: StackView, outcome: OutcomeView) -> bool {
    match command_place(stack, outcome_command(outcome)) {
        Some((direction, i)) => outcome_id(outcome) matches Some((slot, id)) ==> slot < side(
            stack,
            direction,
        )[i].resolved_ids.len(),
        None => true,
    }
}

/// The first command that enqueued the given operation, in the undo history
/// before the redo history.
pub open spec fn operation_place(stack: StackView, id: OperationId) -> Option<(Direction, int)> {
    let matching = |command: CommandView| command.operation_ids.contains(id);
    match list::place(stack.undo, matching) {
        Some(i) => Some((Direction::Undo, i)),
        None => match list::place(stack.redo, matching) {
            Some(i) => Some((Direction::Redo, i)),
            None => None,
        },
    }
}

/// The commands of one side.
pub open spec fn side(stack: StackView, direction: Direction) -> Seq<CommandView> {
    match direction {
        Direction::Undo => stack.undo,
        Direction::Redo => stack.redo,
    }
}

/// The history with one side replaced.
pub open spec fn with_side(stack: StackView, direction: Direction, commands: Seq<CommandView>) -> StackView {
    match direction {
        Direction::Undo => StackView { undo: commands, ..stack },
        Direction::Redo => StackView { redo: commands, ..stack },
    }
}

/// The place of the first command with the given id.
fn find_command(list: &Vec<Command>, id: CommandId) -> (found: Option<usize>)
    ensures
        list::place(commands_view(list@), |command: CommandView| command.id == id) == match found {
            Some(i) => Some(i as int),
            None => None,
        },
        found matches Some(i) ==> i < list@.len(),
{
    let ghost matching = |command: CommandView| command.id == id;
    for i in 0..list.len()
        invariant
            matching == (|command: CommandView| command.id == id),
            forall|j: int| 0 <= j < i ==> !matching(#[trigger] commands_view(list@)[j]),
    {
        if list[i].id == id {
            proof {
                list::lemma_place(commands_view(list@), matching, i as int);
            }
            return Some(i);
        }
    }
    assert(!exists|i: int| list::is_first(commands_view(list@), matching, i));
    None
}

/// The place of the first command that enqueued the given operation.
fn find_operation(list: &Vec<Command>, id: OperationId) -> (found: Option<usize>)
    ensures
        list::place(
            commands_view(list@),
            |command: CommandView| command.operation_ids.contains(id),
        ) == match found {
            Some(i) => Some(i as int),
            None => None,
        },
        found matches Some(i) ==> i < list@.len(),
{
    let ghost matching = |command: CommandView| command.operation_ids.contains(id);
    for i in 0..list.len()
        invariant
            matching == (|command: CommandView| command.operation_ids.contains(id)),
            forall|j: int| 0 <= j < i ==> !matching(#[trigger] commands_view(list@)[j]),
    {
        let ids = &list[i].operation_ids;
        let mut held = false;
        for k in 0..ids.len()
            invariant
                held == ids@.take(k as int).contains(id),
        {
            if ids[k] == id {
                assert(ids@.take(k + 1)[k as int] == id);
                held = true;
            }
            proof {
                if ids@.take(k as int).contains(id) {
                    let at = ids@.take(k as int).index_of(id);
                    assert(ids@.take(k + 1)[at] == id);
                }
                if ids@.take(k + 1).contains(id) && ids@[k as int] != id {
                    let at = ids@.take(k + 1).index_of(id);
                    assert(ids@.take(k as int)[at] == id);
                }
            }
        }
        assert(ids@.take(ids.len() as int) =~= ids@);
        assert(commands_view(list@)[i as int].operation_ids == ids@);
        if held {
            proof {
                list::lemma_place(commands_view(list@), matching, i as int);
            }
            return Some(i);
        }
    }
    assert(!exists|i: int| list::is_first(commands_view(list@), matching, i));
    None
}

/// Settles one creation of a command.
fn resolve_command<U: FnOnce(RoomKey, ExitId, ExitUpdates) -> UpdateReply>(
    command: &mut Command,
    outcome: Outcome,
    update: U,
)
    requires
        outcome_id(outcome@) matches Some((slot, id)) ==> slot < old(command)@.resolved_ids.len(),
        forall|key: RoomKey, id: ExitId, updates: ExitUpdates| #[trigger]
            update.requires((key, id, updates)),
    ensures
        resolved_with(update, old(command)@, outcome@, final(command)@),
        final(command)@.resolved_ids.len() == old(command)@.resolved_ids.len(),
        final(command)@.redo == old(command)@.redo,
        final(command)@.undo == old(command)@.undo,
{
    let ghost before = command@;
    if command.pending > 0 {
        command.pending = command.pending - 1;
    }
    match outcome {
        Outcome::Exit { slot, room_key, follow_up, result, .. } => {
            if let Ok(id) = result {
                command.resolved_ids.set(slot, Some(ResolvedId::Exit(id)));
                assert(command@ == resolved(before, outcome@));
                if let Some(updates) = follow_up {
                    let ghost body = updates;
                    match update(room_key, id, updates) {
                        Ok(Some(operation)) => {
                            command.operation_ids.push(operation);
                        },
                        Ok(None) => {},
                        Err(error) => {
                            command.application_error = Some(
                                join2(
                                    "exit follow-up update failed validation or durable enqueue: ",
                                    error.as_str(),
                                ),
                            );
                        },
                    }
                }
            }
        },
        Outcome::Label { slot, result, .. } => {
            if let Ok(id) = result {
                command.resolved_ids.set(slot, Some(ResolvedId::Label(id)));
            }
        },
        Outcome::Shape { slot, result, .. } => {
            if let Ok(id) = result {
                command.resolved_ids.set(slot, Some(ResolvedId::Shape(id)));
            }
        },
    }
}

impl CommandStack {
    /// Removes the undo/redo entry that submitted a discarded operation, so that
    /// a rejected command is not replayed. Returns whether there was one.
    pub fn discard_operation(&mut self, operation_id: OperationId) -> (found: bool)
        ensures
            match operation_place(old(self)@, operation_id) {
                Some((direction, i)) => found && final(self)@ == with_side(
                    old(self)@,
                    direction,
                    side(old(self)@, direction).remove(i),
                ),
                None => !found && final(self)@ == old(self)@,
            },
            old(self).wf() ==> final(self).wf(),
    {
        let ghost before = self@;
        if let Some(i) = find_operation(&self.undo, operation_id) {
            self.undo.remove(i);
            assert(self@.undo =~= before.undo.remove(i as int));
            assert(before.wf() ==> all_wf(self@.undo)) by {
                if before.wf() {
                    assert forall|k: int| 0 <= k < self@.undo.len() implies (
                    #[trigger] self@.undo[k]).wf() by {
                        if k < i {
                            assert(self@.undo[k] == before.undo[k]);
                        } else {
                            assert(self@.undo[k] == before.undo[k + 1]);
                        }
                    }
                }
            }
            return true;
        }
        if let Some(i) = find_operation(&self.redo, operation_id) {
            self.redo.remove(i);
            assert(self@.redo =~= before.redo.remove(i as int));
            assert(before.wf() ==> all_wf(self@.redo)) by {
                if before.wf() {
                    assert forall|k: int| 0 <= k < self@.redo.len() implies (
                    #[trigger] self@.redo[k]).wf() by {
                        if k < i {
                            assert(self@.redo[k] == before.redo[k]);
                        } else {
                            assert(self@.redo[k] == before.redo[k + 1]);
                        }
                    }
                }
            }
            return true;
        }
        false
    }

    /// Whether an outcome can be settled: the command that it is of, if it is still there,
    /// has the slot that the outcome fills.
    pub fn can_resolve(&self, outcome: &Outcome) -> (can: bool)
        ensures
            can == resolvable(self@, outcome@),
    {
        let (id, filled) = match outcome {
            Outcome::Exit { command, slot, result, .. } => (*command, if result.is_ok() { Some(*slot) } else { None }),
            Outcome::Label { command, slot, result } => (*command, if result.is_ok() { Some(*slot) } else { None }),
            Outcome::Shape { command, slot, result } => (*command, if result.is_ok() { Some(*slot) } else { None }),
        };
        let slot = match filled {
            Some(slot) => slot,
            None => {
                return true;
            },
        };
        if let Some(i) = find_command(&self.undo, id) {
            assert(self.undo@[i as int]@ == self@.undo[i as int]);
            slot < self.undo[i].resolved_ids.len()
        } else if let Some(i) = find_command(&self.redo, id) {
            assert(self.redo@[i as int]@ == self@.redo[i as int]);
            slot < self.redo[i].resolved_ids.len()
        } else {
            true
        }
    }

    /// Settles the completion of a creation: one fewer is pending, and its id
    /// fills its slot. An exit that asks for a follow-up update gets it.
    pub fn resolve<U: FnOnce(RoomKey, ExitId, ExitUpdates) -> UpdateReply>(
        &mut self,
        outcome: Outcome,
        update: U,
    )
        requires
            resolvable(old(self)@, outcome@),
            forall|key: RoomKey, id: ExitId, updates: ExitUpdates| #[trigger]
                update.requires((key, id, updates)),
        ensures
            match command_place(old(self)@, outcome_command(outcome@)) {
                Some((direction, i)) => {
                    let entry = side(final(self)@, direction)[i];
                    &&& resolved_with(update, side(old(self)@, direction)[i], outcome@, entry)
                    &&& final(self)@ == with_side(
                        old(self)@,
                        direction,
                        side(old(self)@, direction).update(i, entry),
                    )
                },
                None => final(self)@ == old(self)@,
            },
            old(self).wf() ==> final(self).wf(),
    {
        let ghost before = self@;
        let id = match &outcome {
            Outcome::Exit { command, .. } => *command,
            Outcome::Label { command, .. } => *command,
            Outcome::Shape { command, .. } => *command,
        };
        if let Some(i) = find_command(&self.undo, id) {
            assert(self.undo@[i as int]@ == before.undo[i as int]);
            resolve_command(&mut self.undo[i], outcome, update);
            let ghost entry = self.undo@[i as int]@;
            assert(self@.undo =~= before.undo.update(i as int, entry));
            assert(before.wf() ==> all_wf(self@.undo)) by {
                if before.wf() {
                    assert forall|k: int| 0 <= k < self@.undo.len() implies (
                    #[trigger] self@.undo[k]).wf() by {
                        assert(before.undo[k].wf());
                    }
                }
            }
        } else if let Some(i) = find_command(&self.redo, id) {
            assert(self.redo@[i as int]@ == before.redo[i as int]);
            resolve_command(&mut self.redo[i], outcome, update);
            let ghost entry = self.redo@[i as int]@;
            assert(self@.redo =~= before.redo.update(i as int, entry));
            assert(before.wf() ==> all_wf(self@.redo)) by {
                if before.wf() {
                    assert forall|k: int| 0 <= k < self@.redo.len() implies (
                    #[trigger] self@.redo[k]).wf() by {
                        assert(before.redo[k].wf());
                    }
                }
            }
        }
    }
}

} // verus!
