//! What the client does for one event: its own reaction first, then the
//! subscribed handlers in the order of their registration.
//!
//! The dispatcher decides and the caller carries out. A plan is a list of
//! actions to perform from first to last; a step that fails is reported and
//! the walk goes on with the next.

use crate::event::{EventType, EventView};
use crate::text::{chars_of, range_is};
use vstd::prelude::*;

verus! {

/// What a log entry is about.
#[derive(Clone, Copy, Debug, PartialEq, Eq, Structural)]
pub enum Notice {
    /// A line that is no well-formed message; the text is the line.
    ProtocolError,
    /// A chat message that is no presence message; the text is the message.
    UnknownMessage,
    /// A presence message with an unexpected action; the text is the action.
    UnknownAction,
}

/// The model of an action.
pub enum ActionView {
    Log(Notice, Seq<char>),
    Write(Seq<char>),
    Invoke(int),
}

/// One thing for the caller to do.
#[derive(Debug)]
pub enum Action {
    /// Hand the text to the log.
    Log(Notice, String),
    /// Write the text to the transport, all of it, before going on.
    Write(String),
    /// Call the handler that was registered under this number.
    Invoke(usize),
}

impl View for Action {
    type V = ActionView;

    open spec fn view(&self) -> ActionView {
        match self {
            Action::Log(notice, text) => ActionView::Log(*notice, text@),
            Action::Write(text) => ActionView::Write(text@),
            Action::Invoke(id) => ActionView::Invoke(*id as int),
        }
    }
}

/// The models of a list of actions, in its order.
pub open spec fn views(plan: Seq<Action>) -> Seq<ActionView> {
    plan.map_values(|a: Action| a@)
}

/// The answer to a keep-alive line: the same line with `PONG` in place of
/// the `PING` that opens it. A text that does not open with `PING` is left
/// as it is.
pub open spec fn pong(message: Seq<char>) -> Seq<char> {
    if "PING"@.is_prefix_of(message) {
        "PONG"@ + message.skip(4)
    } else {
        message
    }
}

/// What the client itself does for an event, before any handler: it
/// answers a keep-alive line, and logs the line of a protocol error.
pub open spec fn reaction(event: EventView) -> Seq<ActionView> {
    match event.event_type {
        EventType::Ping => seq![ActionView::Write(pong(event.message))],
        EventType::Error => seq![ActionView::Log(Notice::ProtocolError, event.message)],
        _ => Seq::empty(),
    }
}

/// The calls owed to the handlers subscribed to `kind`: one for each
/// subscription of that kind, in the order of registration.
pub open spec fn invocations(subscriptions: Seq<EventType>, kind: EventType) -> Seq<ActionView>
    decreases subscriptions.len(),
{
    if subscriptions.len() == 0 {
        Seq::empty()
    } else {
        let earlier = invocations(subscriptions.drop_last(), kind);
        if subscriptions.last() == kind {
            earlier.push(ActionView::Invoke(subscriptions.len() - 1))
        } else {
            earlier
        }
    }
}

/// All that is to be done for an event, in order.
pub open spec fn dispatch_plan(subscriptions: Seq<EventType>, event: EventView) -> Seq<
    ActionView,
> {
    reaction(event) + invocations(subscriptions, event.event_type)
}

/// Computes the answer to a keep-alive line.
pub fn pong_reply(message: &str) -> (reply: String)
    ensures
        reply@ == pong(message@),
{
    let v = chars_of(message);
    let n: usize = v.len();
    proof {
        reveal_strlit("PING");
    }
    if n >= 4 && range_is(&v, 0, 4, "PING") {
        let mut reply = "PONG".to_owned();
        reply.append(message.substring_char(4, n));
        proof {
            assert(message@.skip(4) =~= message@.subrange(4, n as int));
        }
        reply
    } else {
        message.to_owned()
    }
}

/// The calls in `invocations` are calls of subscriptions of that kind.
pub proof fn lemma_invocations_sound(subscriptions: Seq<EventType>, kind: EventType)
    ensures
        invocations(subscriptions, kind).len() <= subscriptions.len(),
        forall|k: int|
            0 <= k < invocations(subscriptions, kind).len() ==> {
                let step = #[trigger] invocations(subscriptions, kind)[k];
                &&& step is Invoke
                &&& 0 <= step->Invoke_0 < subscriptions.len()
                &&& subscriptions[step->Invoke_0] == kind
            },
    decreases subscriptions.len(),
{
    if subscriptions.len() > 0 {
        lemma_invocations_sound(subscriptions.drop_last(), kind);
    }
}

/// The calls in `invocations` stand in the order of registration, so none
/// stands there twice.
pub proof fn lemma_invocations_ordered(subscriptions: Seq<EventType>, kind: EventType)
    ensures
        forall|j: int, k: int|
            0 <= j < k < invocations(subscriptions, kind).len() ==> (
            #[trigger] invocations(subscriptions, kind)[j])->Invoke_0 < (
            #[trigger] invocations(subscriptions, kind)[k])->Invoke_0,
    decreases subscriptions.len(),
{
    if subscriptions.len() > 0 {
        lemma_invocations_ordered(subscriptions.drop_last(), kind);
        lemma_invocations_sound(subscriptions.drop_last(), kind);
    }
}

/// Every subscription of that kind has its call in `invocations`.
pub proof fn lemma_invocations_complete(subscriptions: Seq<EventType>, kind: EventType, id: int)
    requires
        0 <= id < subscriptions.len(),
        subscriptions[id] == kind,
    ensures
        invocations(subscriptions, kind).contains(ActionView::Invoke(id)),
    decreases subscriptions.len(),
{
    let earlier = invocations(subscriptions.drop_last(), kind);
    if id == subscriptions.len() - 1 {
        assert(earlier.push(ActionView::Invoke(id))[earlier.len() as int] == ActionView::Invoke(
            id,
        ));
    } else {
        lemma_invocations_complete(subscriptions.drop_last(), kind, id);
        let k = choose|k: int| 0 <= k < earlier.len() && earlier[k] == ActionView::Invoke(id);
        assert(invocations(subscriptions, kind)[k] == ActionView::Invoke(id));
    }
}

/// A subscription added last gets its call last, and changes no call that
/// was owed before.
pub proof fn lemma_invocations_push(
    subscriptions: Seq<EventType>,
    added: EventType,
    kind: EventType,
)
    ensures
        invocations(subscriptions.push(added), kind) == if added == kind {
            invocations(subscriptions, kind).push(ActionView::Invoke(subscriptions.len() as int))
        } else {
            invocations(subscriptions, kind)
        },
{
    assert(subscriptions.push(added).drop_last() =~= subscriptions);
}

/// Keep-alive. The plan for a keep-alive event opens with the one write it
/// holds, the line with `PONG` for `PING`; every step after it is the call
/// of a handler.
pub proof fn lemma_keep_alive_first(subscriptions: Seq<EventType>, event: EventView)
    requires
        event.event_type == EventType::Ping,
    ensures
        dispatch_plan(subscriptions, event).len() >= 1,
        dispatch_plan(subscriptions, event)[0] == ActionView::Write(pong(event.message)),
        forall|k: int|
            1 <= k < dispatch_plan(subscriptions, event).len() ==> (
            #[trigger] dispatch_plan(subscriptions, event)[k]) is Invoke,
{
    lemma_invocations_sound(subscriptions, event.event_type);
    let calls = invocations(subscriptions, event.event_type);
    assert forall|k: int| 1 <= k < dispatch_plan(subscriptions, event).len() implies (
    #[trigger] dispatch_plan(subscriptions, event)[k]) is Invoke by {
        assert(dispatch_plan(subscriptions, event)[k] == calls[k - 1]);
    }
}

/// Tells whether the calls of handlers stand last in a plan: once the
/// first of them is reached, nothing is left to log or to write.
pub open spec fn handlers_last(plan: Seq<ActionView>) -> bool {
    forall|j: int, k: int|
        0 <= j <= k < plan.len() && (#[trigger] plan[j]) is Invoke ==> (
        #[trigger] plan[k]) is Invoke
}

/// Steps that call no handler, put before a plan in which the calls
/// stand last, give a plan in which they stand last.
pub proof fn lemma_handlers_last_behind(steps: Seq<ActionView>, plan: Seq<ActionView>)
    requires
        forall|i: int| 0 <= i < steps.len() ==> !((#[trigger] steps[i]) is Invoke),
        handlers_last(plan),
    ensures
        handlers_last(steps + plan),
{
    let all = steps + plan;
    assert forall|j: int, k: int| 0 <= j <= k < all.len() && (#[trigger] all[j]) is Invoke implies (
    #[trigger] all[k]) is Invoke by {
        if j < steps.len() {
            assert(all[j] == steps[j]);
        } else {
            assert(all[j] == plan[j - steps.len()]);
            assert(all[k] == plan[k - steps.len()]);
        }
    }
}

/// In the plan for an event the calls of handlers stand last.
pub proof fn lemma_handlers_last(subscriptions: Seq<EventType>, event: EventView)
    ensures
        handlers_last(dispatch_plan(subscriptions, event)),
{
    lemma_invocations_sound(subscriptions, event.event_type);
    let calls = invocations(subscriptions, event.event_type);
    assert(handlers_last(calls));
    lemma_handlers_last_behind(reaction(event), calls);
}

/// Isolation. Of two handlers subscribed to the kind of an event, both are
/// called, the one registered first before the other. The plan is fixed
/// before the first of them runs, so what a handler does, or that it fails,
/// takes no later call out of it.
pub proof fn lemma_later_handler_called(
    subscriptions: Seq<EventType>,
    event: EventView,
    first: int,
    second: int,
)
    requires
        0 <= first < second < subscriptions.len(),
        subscriptions[first] == event.event_type,
        subscriptions[second] == event.event_type,
    ensures
        exists|j: int, k: int|
            0 <= j < k < dispatch_plan(subscriptions, event).len() && #[trigger] dispatch_plan(
                subscriptions,
                event,
            )[j] == ActionView::Invoke(first) && #[trigger] dispatch_plan(subscriptions, event)[k]
                == ActionView::Invoke(second),
{
    let kind = event.event_type;
    let calls = invocations(subscriptions, kind);
    let plan = dispatch_plan(subscriptions, event);
    lemma_invocations_complete(subscriptions, kind, first);
    lemma_invocations_complete(subscriptions, kind, second);
    lemma_invocations_ordered(subscriptions, kind);
    let a = choose|a: int| 0 <= a < calls.len() && calls[a] == ActionView::Invoke(first);
    let b = choose|b: int| 0 <= b < calls.len() && calls[b] == ActionView::Invoke(second);
    if b <= a {
        if b < a {
            assert(calls[b]->Invoke_0 < calls[a]->Invoke_0);
        }
        assert(false);
    }
    let offset = reaction(event).len() as int;
    assert(plan[offset + a] == calls[a]);
    assert(plan[offset + b] == calls[b]);
}

} // verus!
