//! What holds of a connection over time.
//!
//! The contract of [`Connection::step`](crate::connection::Connection::step)
//! says what one input does. The statements here follow a connection
//! through any number of inputs.

use crate::bus::{BusModel, SubscriberModel};
use crate::connection::{ActionModel, ConnectionModel, Input, Outcome};
use vstd::prelude::*;

verus! {

/// What a connection answers to `inputs`, one action for each.
pub open spec fn answers(connection: ConnectionModel, bus: BusModel, inputs: Seq<Input>) -> Seq<
    ActionModel,
>
    decreases inputs.len(),
{
    if inputs.len() == 0 {
        Seq::empty()
    } else {
        let next = connection.step(bus, inputs[0]);
        seq![next.action] + answers(next.connection, next.bus, inputs.skip(1))
    }
}

/// The connection and its bus after `inputs`.
pub open spec fn after(connection: ConnectionModel, bus: BusModel, inputs: Seq<Input>) -> Outcome
    decreases inputs.len(),
{
    if inputs.len() == 0 {
        connection.stay(bus)
    } else {
        let next = connection.step(bus, inputs[0]);
        after(next.connection, next.bus, inputs.skip(1))
    }
}

/// The actions that end a session: they tell the driver to close or drop
/// the transport.
pub open spec fn ends_session(action: ActionModel) -> bool {
    action is Shutdown || action is Discard
}

/// How many of `actions` end a session.
pub open spec fn endings(actions: Seq<ActionModel>) -> nat
    decreases actions.len(),
{
    if actions.len() == 0 {
        0
    } else if ends_session(actions[0]) {
        1 + endings(actions.skip(1))
    } else {
        endings(actions.skip(1))
    }
}

/// The subscribers of a bus other than the connection's own.
pub open spec fn others(connection: ConnectionModel, bus: BusModel) -> Map<u64, SubscriberModel> {
    match connection.subscription {
        Some(id) => bus.subscribers.remove(id),
        None => bus.subscribers,
    }
}

/// One input keeps a connection and its bus in order, and touches no
/// subscriber but the connection's own.
pub proof fn lemma_step_keeps(connection: ConnectionModel, bus: BusModel, input: Input)
    requires
        connection.wf(),
        bus.wf(),
    ensures
        connection.step(bus, input).connection.wf(),
        connection.step(bus, input).bus.wf(),
        others(connection.step(bus, input).connection, connection.step(bus, input).bus) == others(
            connection,
            bus,
        ),
        ends_session(connection.step(bus, input).action) ==> connection.step(
            bus,
            input,
        ).connection.is_over(),
        connection.step(bus, input).action is Send ==> !connection.is_over(),
{
    let next = connection.step(bus, input);
    assert(others(next.connection, next.bus) =~= others(connection, bus));
    assert(next.bus.subscribers.dom().finite());
    assert forall|id: u64| #[trigger] next.bus.subscribers.contains_key(id) implies id
        < next.bus.issued && next.bus.subscribers[id].queue.len() <= next.bus.capacity by {
        if bus.subscribers.contains_key(id) {
        }
    }
}

/// A connection that is closing or closed never asks for anything again, and
/// leaves its bus alone.
pub proof fn lemma_over_is_silent(connection: ConnectionModel, bus: BusModel, inputs: Seq<Input>)
    requires
        connection.is_over(),
    ensures
        forall|i: int|
            0 <= i < inputs.len() ==> #[trigger] answers(connection, bus, inputs)[i]
                == ActionModel::Idle,
        answers(connection, bus, inputs).len() == inputs.len(),
        endings(answers(connection, bus, inputs)) == 0,
        after(connection, bus, inputs).connection.is_over(),
        after(connection, bus, inputs).bus == bus,
    decreases inputs.len(),
{
    if inputs.len() > 0 {
        let next = connection.step(bus, inputs[0]);
        lemma_over_is_silent(next.connection, next.bus, inputs.skip(1));
        let rest = answers(next.connection, next.bus, inputs.skip(1));
        let all = answers(connection, bus, inputs);
        assert(all.skip(1) =~= rest);
        assert forall|i: int| 0 <= i < inputs.len() implies #[trigger] all[i]
            == ActionModel::Idle by {
            if i > 0 {
                assert(all[i] == rest[i - 1]);
            }
        }
    }
}

/// A failed write ends the session in the same step, and for good.
///
/// Take a connection that has something to write to: it is active, or its
/// greeting is under way. Once a write is reported as failed, the connection
/// is closing or closed, its subscription is gone from the bus, and whatever
/// is reported after that, it never asks for a frame to be sent again.
pub proof fn lemma_failed_write_ends(
    connection: ConnectionModel,
    bus: BusModel,
    inputs: Seq<Input>,
)
    requires
        connection.wf(),
        connection.subscription is Some,
    ensures
        ({
            let failed = connection.step(bus, Input::WriteFailed);
            &&& failed.connection.is_over()
            &&& ends_session(failed.action)
            &&& !failed.bus.subscribers.contains_key(connection.subscription->0)
            &&& forall|i: int|
                0 <= i < inputs.len() ==> #[trigger] answers(
                    failed.connection,
                    failed.bus,
                    inputs,
                )[i] == ActionModel::Idle
        }),
{
    let failed = connection.step(bus, Input::WriteFailed);
    lemma_over_is_silent(failed.connection, failed.bus, inputs);
}

/// A session is ended at most once: whatever is reported to a connection,
/// and in whatever order, at most one of its answers tells the driver to
/// close or drop the transport, and no frame is handed out after it.
pub proof fn lemma_ended_once(connection: ConnectionModel, bus: BusModel, inputs: Seq<Input>)
    requires
        connection.wf(),
        bus.wf(),
    ensures
        endings(answers(connection, bus, inputs)) <= 1,
        forall|i: int, j: int|
            0 <= i < j < inputs.len() && ends_session(
                #[trigger] answers(connection, bus, inputs)[i],
            ) ==> #[trigger] answers(connection, bus, inputs)[j] == ActionModel::Idle,
        answers(connection, bus, inputs).len() == inputs.len(),
    decreases inputs.len(),
{
    if inputs.len() > 0 {
        let next = connection.step(bus, inputs[0]);
        lemma_step_keeps(connection, bus, inputs[0]);
        let rest = answers(next.connection, next.bus, inputs.skip(1));
        let all = answers(connection, bus, inputs);
        assert(all.skip(1) =~= rest);
        lemma_ended_once(next.connection, next.bus, inputs.skip(1));
        if ends_session(next.action) {
            lemma_over_is_silent(next.connection, next.bus, inputs.skip(1));
        }
        assert forall|i: int, j: int|
            0 <= i < j < inputs.len() && ends_session(#[trigger] all[i]) implies #[trigger] all[j]
            == ActionModel::Idle by {
            assert(all[j] == rest[j - 1]);
            if i > 0 {
                assert(all[i] == rest[i - 1]);
            }
        }
    }
}

/// A connection leaves no trace on the bus.
///
/// Whatever is reported to a connection, the subscribers of the bus other
/// than its own are what they were. Once the connection is closing or
/// closed it holds no subscription, so the bus has exactly the subscribers
/// it would have had without the connection: as many as before.
pub proof fn lemma_no_trace(connection: ConnectionModel, bus: BusModel, inputs: Seq<Input>)
    requires
        connection.wf(),
        bus.wf(),
    ensures
        after(connection, bus, inputs).connection.wf(),
        after(connection, bus, inputs).bus.wf(),
        others(after(connection, bus, inputs).connection, after(connection, bus, inputs).bus)
            == others(connection, bus),
        after(connection, bus, inputs).connection.is_over() ==> after(
            connection,
            bus,
            inputs,
        ).bus.subscribers == others(connection, bus),
    decreases inputs.len(),
{
    if inputs.len() > 0 {
        let next = connection.step(bus, inputs[0]);
        lemma_step_keeps(connection, bus, inputs[0]);
        lemma_no_trace(next.connection, next.bus, inputs.skip(1));
    }
}

} // verus!
