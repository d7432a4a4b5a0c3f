//! What holds of the undo/redo history as a whole.

use vstd::prelude::*;

use super::commands::{CommandId, CommandView, Direction, MAX_DEPTH};
use super::compile::CompiledView;
use super::model::OperationId;
use super::stack::{self, ReplyView, StackView};
use crate::list;

verus! {

/// A new command leaves nothing to redo.
pub proof fn law_a_new_command_leaves_nothing_to_redo(
    before: StackView,
    command: CommandView,
    compiled: CompiledView,
    reply: ReplyView,
)
    ensures
        stack::after_push(before, command, compiled, reply).redo.len() == 0,
        !stack::after_push(before, command, compiled, reply).can_redo(),
{
}

/// The history never holds more than its depth, and drops its oldest command first.
pub proof fn law_the_oldest_command_is_dropped(undo: Seq<CommandView>, command: CommandView)
    requires
        undo.len() <= MAX_DEPTH,
    ensures
        stack::bounded_push(undo, command).len() <= MAX_DEPTH,
        stack::bounded_push(undo, command).last() == command,
        undo.len() < MAX_DEPTH ==> stack::bounded_push(undo, command) == undo.push(command),
        undo.len() == MAX_DEPTH ==> stack::bounded_push(undo, command) == undo.skip(1).push(command),
{
    if undo.len() == MAX_DEPTH {
        assert(undo.push(command).drop_first() =~= undo.skip(1).push(command));
    }
}

/// A command that could not be staged is not recorded: there is nothing of it to undo.
pub proof fn law_a_refused_command_is_not_recorded(
    before: StackView,
    command: CommandView,
    compiled: CompiledView,
    reply: ReplyView,
)
    requires
        reply is Err,
    ensures
        stack::after_push(before, command, compiled, reply).undo == before.undo,
        stack::after_push(before, command, compiled, reply).last_error is Some,
{
}

/// An undo that could not be staged changes neither list: the command stays where it
/// was, with the ids it had.
pub proof fn law_a_refused_undo_changes_nothing(
    before: StackView,
    compiled: CompiledView,
    reply: ReplyView,
)
    requires
        reply is Err,
        before.undo.len() > 0,
    ensures
        ({
            let after = stack::after_undo(before, compiled, reply);
            let kept = after.undo.last();
            let given = before.undo.last();
            &&& after.redo == before.redo
            &&& after.undo.drop_last() == before.undo.drop_last()
            &&& kept.id == given.id && kept.redo == given.redo && kept.undo == given.undo
            &&& kept.resolved_ids == given.resolved_ids && kept.pending == given.pending
            &&& after.last_error is Some
        }),
{
    let after = stack::after_undo(before, compiled, reply);
    assert(after.undo.drop_last() =~= before.undo.drop_last());
}

/// A redo that could not be staged changes neither list.
pub proof fn law_a_refused_redo_changes_nothing(
    before: StackView,
    compiled: CompiledView,
    reply: ReplyView,
)
    requires
        reply is Err,
        before.redo.len() > 0,
    ensures
        ({
            let after = stack::after_redo(before, compiled, reply);
            let kept = after.redo.last();
            let given = before.redo.last();
            &&& after.undo == before.undo
            &&& after.redo.drop_last() == before.redo.drop_last()
            &&& kept.id == given.id && kept.redo == given.redo && kept.undo == given.undo
            &&& kept.resolved_ids == given.resolved_ids && kept.pending == given.pending
            &&& after.last_error is Some
        }),
{
    let after = stack::after_redo(before, compiled, reply);
    assert(after.redo.drop_last() =~= before.redo.drop_last());
}

/// A command that is undone and redone is back at its place, with the same mutations
/// in both directions; the rest of the history is as it was.
pub proof fn law_redo_follows_undo(
    before: StackView,
    undone: CompiledView,
    first: ReplyView,
    redone: CompiledView,
    second: ReplyView,
)
    requires
        first is Ok,
        second is Ok,
        before.undo.len() > 0,
    ensures
        ({
            let between = stack::after_undo(before, undone, first);
            let after = stack::after_redo(between, redone, second);
            &&& between.undo == before.undo.drop_last()
            &&& between.redo.len() == before.redo.len() + 1
            &&& after.redo == before.redo
            &&& after.undo.drop_last() == before.undo.drop_last()
            &&& after.undo.last().id == before.undo.last().id
            &&& after.undo.last().redo == before.undo.last().redo
            &&& after.undo.last().undo == before.undo.last().undo
        }),
{
    let between = stack::after_undo(before, undone, first);
    let after = stack::after_redo(between, redone, second);
    assert(after.redo =~= before.redo);
    assert(after.undo.drop_last() =~= before.undo.drop_last());
}

/// Edits of one field that follow one another are one step: it restores what was there
/// before the first, and reinstates what was there after the last.
pub proof fn law_coalesced_edits_are_one_step(
    before: StackView,
    command: CommandView,
    compiled: CompiledView,
    reply: ReplyView,
)
    requires
        reply is Ok,
        stack::merges(
            before.undo,
            stack::settled(stack::numbered(before, command), compiled, reply),
        ),
    ensures
        ({
            let after = stack::after_push(before, command, compiled, reply);
            &&& after.undo.len() == before.undo.len()
            &&& after.undo.last().undo == before.undo.last().undo
            &&& after.undo.last().redo == command.redo
            &&& after.undo.last().id == before.undo.last().id
        }),
{
}

/// A command whose creations are not all settled is neither undone nor merged into.
pub proof fn law_unsettled_commands_stay(before: StackView, command: CommandView)
    requires
        before.undo.len() > 0,
        before.undo.last().pending > 0,
    ensures
        !before.can_undo(),
        !stack::merges(before.undo, command),
{
}

/// Every command has an id of its own, below the next one.
pub open spec fn ids_distinct(stack: StackView) -> bool {
    let all = stack.undo + stack.redo;
    &&& forall|i: int| 0 <= i < all.len() ==> (#[trigger] all[i]).id < stack.next_id
    &&& forall|i: int, k: int| 0 <= i < k < all.len() ==> (#[trigger] all[i]).id != (#[trigger] all[k]).id
}

/// Ids stay distinct when a command is pushed.
pub proof fn law_pushing_keeps_ids_distinct(
    before: StackView,
    command: CommandView,
    compiled: CompiledView,
    reply: ReplyView,
)
    requires
        ids_distinct(before),
        before.next_id < u64::MAX,
    ensures
        ids_distinct(stack::after_push(before, command, compiled, reply)),
{
    let after = stack::after_push(before, command, compiled, reply);
    let old_all = before.undo + before.redo;
    let all = after.undo + after.redo;
    assert(all =~= after.undo);
    assert forall|i: int| 0 <= i < before.undo.len() implies (#[trigger] before.undo[i]).id
        < before.next_id by {
        assert(old_all[i] == before.undo[i]);
    }
    assert forall|i: int, k: int| 0 <= i < k < before.undo.len() implies (
    #[trigger] before.undo[i]).id != (#[trigger] before.undo[k]).id by {
        assert(old_all[i] == before.undo[i]);
        assert(old_all[k] == before.undo[k]);
    }
    if reply is Ok {
        let done = stack::settled(stack::numbered(before, command), compiled, reply);
        if stack::merges(before.undo, done) {
            assert forall|i: int| 0 <= i < all.len() implies (#[trigger] all[i]).id
                == before.undo[i].id by {}
        } else if before.undo.len() + 1 > MAX_DEPTH {
            assert forall|i: int| 0 <= i < all.len() - 1 implies (#[trigger] all[i]).id
                == before.undo[i + 1].id by {}
        }
    }
}

/// Ids stay distinct when the last command is undone.
pub proof fn law_undoing_keeps_ids_distinct(
    before: StackView,
    compiled: CompiledView,
    reply: ReplyView,
)
    requires
        ids_distinct(before),
        before.undo.len() > 0,
    ensures
        ids_distinct(stack::after_undo(before, compiled, reply)),
{
    let after = stack::after_undo(before, compiled, reply);
    let n = before.undo.len() as int;
    let m = before.redo.len() as int;
    let old_all = before.undo + before.redo;
    let all = after.undo + after.redo;
    // The command moves from the end of one list to the end of the other.
    assert forall|i: int| 0 <= i < all.len() implies (#[trigger] all[i]).id == old_all[if reply is Err
        || i < n - 1 {
        i
    } else if i < n - 1 + m {
        i + 1
    } else {
        n - 1
    }].id by {}
}

/// Ids stay distinct when the last undone command is redone.
pub proof fn law_redoing_keeps_ids_distinct(
    before: StackView,
    compiled: CompiledView,
    reply: ReplyView,
)
    requires
        ids_distinct(before),
        before.redo.len() > 0,
    ensures
        ids_distinct(stack::after_redo(before, compiled, reply)),
{
    let after = stack::after_redo(before, compiled, reply);
    let n = before.undo.len() as int;
    let m = before.redo.len() as int;
    let old_all = before.undo + before.redo;
    let all = after.undo + after.redo;
    // The command moves from the end of one list to the end of the other.
    assert forall|i: int| 0 <= i < all.len() implies (#[trigger] all[i]).id == old_all[if reply is Err
        || i < n {
        i
    } else if i == n {
        n + m - 1
    } else {
        i - 1
    }].id by {}
}

/// The command that enqueued an operation that was discarded is gone from the history;
/// every other command stays, in its order.
pub proof fn law_a_discarded_operation_takes_its_command(
    before: StackView,
    operation: OperationId,
    direction: Direction,
    i: int,
)
    requires
        stack::operation_place(before, operation) == Some((direction, i)),
    ensures
        0 <= i < stack::side(before, direction).len(),
        stack::side(before, direction)[i].operation_ids.contains(operation),
        ({
            let after = stack::with_side(
                before,
                direction,
                stack::side(before, direction).remove(i),
            );
            after.undo.len() + after.redo.len() == before.undo.len() + before.redo.len() - 1
        }),
{
    let matching = |command: CommandView| command.operation_ids.contains(operation);
    match direction {
        Direction::Undo => {
            assert(list::is_first(before.undo, matching, i));
        },
        Direction::Redo => {
            assert(list::is_first(before.redo, matching, i));
        },
    }
}

/// A completion that is reported settles one creation.
pub proof fn law_a_completion_settles_one_creation(command: CommandView, outcome: super::compile::OutcomeView)
    requires
        command.pending > 0,
    ensures
        stack::resolved(command, outcome).pending == command.pending - 1,
        stack::resolved(command, outcome).redo == command.redo,
        stack::resolved(command, outcome).undo == command.undo,
{
}

/// Something that happens to a history.
pub enum Event {
    /// A command was pushed, and staging it was answered.
    Push { command: CommandView, compiled: CompiledView, reply: ReplyView },
    /// The last command was to be undone.
    Undo { compiled: CompiledView, reply: ReplyView },
    /// The last undone command was to be redone.
    Redo { compiled: CompiledView, reply: ReplyView },
    /// A creation of a command was completed, which left the command as given.
    Resolve { command: CommandId, left: CommandView },
    /// An operation was discarded.
    Discard(OperationId),
    /// All history was dropped.
    Clear,
    /// The last error was taken.
    TakeError,
}

/// The history after an event.
pub open spec fn after_event(before: StackView, event: Event) -> StackView {
    match event {
        Event::Push { command, compiled, reply } => stack::after_push(before, command, compiled, reply),
        Event::Undo { compiled, reply } => if before.can_undo() {
            stack::after_undo(before, compiled, reply)
        } else {
            stack::unmoved(before)
        },
        Event::Redo { compiled, reply } => if before.can_redo() {
            stack::after_redo(before, compiled, reply)
        } else {
            stack::unmoved(before)
        },
        Event::Resolve { command, left } => match stack::command_place(before, command) {
            Some((direction, i)) => stack::with_side(
                before,
                direction,
                stack::side(before, direction).update(i, left),
            ),
            None => before,
        },
        Event::Discard(operation) => match stack::operation_place(before, operation) {
            Some((direction, i)) => stack::with_side(
                before,
                direction,
                stack::side(before, direction).remove(i),
            ),
            None => before,
        },
        Event::Clear => StackView { undo: Seq::empty(), redo: Seq::empty(), ..before },
        Event::TakeError => StackView { last_error: None, ..before },
    }
}

/// The history that events lead to from an empty one.
pub open spec fn history_of(events: Seq<Event>) -> StackView
    decreases events.len(),
{
    if events.len() == 0 {
        StackView { undo: Seq::empty(), redo: Seq::empty(), next_id: 0, last_error: None }
    } else {
        after_event(history_of(events.drop_last()), events.last())
    }
}

/// Whatever happens to a history, it never holds more commands than its depth, those that
/// were undone among them.
pub proof fn law_a_history_stays_within_its_depth(events: Seq<Event>)
    ensures
        history_of(events).undo.len() + history_of(events).redo.len() <= MAX_DEPTH,
    decreases events.len(),
{
    if events.len() > 0 {
        let before = history_of(events.drop_last());
        law_a_history_stays_within_its_depth(events.drop_last());
        match events.last() {
            Event::Push { command, compiled, reply } => {
                let done = stack::settled(stack::numbered(before, command), compiled, reply);
                law_the_oldest_command_is_dropped(before.undo, done);
            },
            Event::Resolve { command, .. } => {
                let matching = |one: CommandView| one.id == command;
                if let Some((direction, i)) = stack::command_place(before, command) {
                    assert(list::is_first(stack::side(before, direction), matching, i));
                }
            },
            Event::Discard(operation) => {
                if let Some((direction, i)) = stack::operation_place(before, operation) {
                    law_a_discarded_operation_takes_its_command(before, operation, direction, i);
                }
            },
            _ => {},
        }
    }
}

} // verus!
