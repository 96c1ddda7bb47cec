//! The listener of a server: it hands what arrives to the serving loop, until a request to stop.
use vstd::prelude::*;

use crate::message::{is_stop, is_stop_msg, law_stop_text, NetworkMsgError};
use crate::server::Event;

verus! {

/// What the listener does about what it has read from a connection.
pub enum ListenerAction {
    /// Hand the event to the serving loop, wait for its reply and send that.
    ForwardAndReply(Event),
    /// Hand the event to the serving loop, and listen no longer.
    ForwardAndStop(Event),
    /// Report the error, and go on listening.
    Report(NetworkMsgError),
}

/// What the listener does about `input`, which it has read from a connection.
pub open spec fn action_of(input: Result<String, NetworkMsgError>) -> ListenerAction {
    match input {
        Ok(msg) => if is_stop(msg@) {
            ListenerAction::ForwardAndStop(Event { msg })
        } else {
            ListenerAction::ForwardAndReply(Event { msg })
        },
        Err(e) => ListenerAction::Report(e),
    }
}

/// Decides about what was read from a connection.
pub fn listener_step(input: Result<String, NetworkMsgError>) -> (r: ListenerAction)
    ensures
        r == action_of(input),
{
    match input {
        Ok(msg) => {
            if is_stop_msg(msg.as_str()) {
                ListenerAction::ForwardAndStop(Event { msg })
            } else {
                ListenerAction::ForwardAndReply(Event { msg })
            }
        },
        Err(e) => ListenerAction::Report(e),
    }
}

/// What the listener hands to the serving loop of the connections `inputs`, one after the other:
/// it acts on each, and listens no longer after the first action that says so.
pub open spec fn forwarded(inputs: Seq<Result<String, NetworkMsgError>>) -> Seq<Event>
    decreases inputs.len(),
{
    if inputs.len() == 0 {
        seq![]
    } else {
        match action_of(inputs.first()) {
            ListenerAction::ForwardAndReply(ev) => seq![ev] + forwarded(inputs.drop_first()),
            ListenerAction::ForwardAndStop(ev) => seq![ev],
            ListenerAction::Report(_) => forwarded(inputs.drop_first()),
        }
    }
}

/// The messages among `inputs`, in their order, each as an event.
pub open spec fn messages_of(inputs: Seq<Result<String, NetworkMsgError>>) -> Seq<Event>
    decreases inputs.len(),
{
    if inputs.len() == 0 {
        seq![]
    } else {
        match inputs.first() {
            Ok(msg) => seq![Event { msg }] + messages_of(inputs.drop_first()),
            Err(_) => messages_of(inputs.drop_first()),
        }
    }
}

/// Whether `input` is the message that stops a server.
pub open spec fn is_stop_input(input: Result<String, NetworkMsgError>) -> bool {
    input matches Ok(msg) && is_stop(msg@)
}

/// While no message to stop comes, the listener hands on every message, in their order, and
/// nothing else.
pub proof fn law_forwards_all_without_stop(inputs: Seq<Result<String, NetworkMsgError>>)
    requires
        forall|i: int| 0 <= i < inputs.len() ==> !is_stop_input(#[trigger] inputs[i]),
    ensures
        forwarded(inputs) == messages_of(inputs),
        forall|i: int|
            0 <= i < forwarded(inputs).len() ==> !is_stop((#[trigger] forwarded(inputs)[i]).msg@),
    decreases inputs.len(),
{
    if inputs.len() > 0 {
        let rest = inputs.drop_first();
        assert forall|i: int| 0 <= i < rest.len() implies !is_stop_input(#[trigger] rest[i]) by {
            assert(rest[i] == inputs[i + 1]);
        }
        law_forwards_all_without_stop(rest);
        assert(!is_stop_input(inputs[0]));
        if let Ok(msg) = inputs.first() {
            assert forall|i: int| 0 <= i < forwarded(inputs).len() implies !is_stop(
                (#[trigger] forwarded(inputs)[i]).msg@,
            ) by {
                if i > 0 {
                    assert(forwarded(inputs)[i] == forwarded(rest)[i - 1]);
                }
            }
        }
    }
}

/// Where the first message to stop comes at the place `n`, the listener hands on every message up
/// to it, in their order, and that message last. It is the only one to stop, and of what comes
/// after it nothing is handed on.
pub proof fn law_forwards_up_to_stop(inputs: Seq<Result<String, NetworkMsgError>>, n: int)
    requires
        0 <= n < inputs.len(),
        is_stop_input(inputs[n]),
        forall|i: int| 0 <= i < n ==> !is_stop_input(#[trigger] inputs[i]),
    ensures
        forwarded(inputs) == messages_of(inputs.take(n + 1)),
        forwarded(inputs) == messages_of(inputs.take(n)).push(
            Event { msg: inputs[n]->Ok_0 },
        ),
        forall|i: int|
            0 <= i < forwarded(inputs).len() - 1 ==> !is_stop(
                (#[trigger] forwarded(inputs)[i]).msg@,
            ),
    decreases n,
{
    let stop = Event { msg: inputs[n]->Ok_0 };
    let rest = inputs.drop_first();
    assert(inputs.take(n + 1).drop_first() =~= rest.take(n));
    if n == 0 {
        assert(inputs.take(0) =~= seq![]);
        assert(rest.take(0) =~= seq![]);
        assert(inputs.take(1).first() == inputs[0]);
        assert(messages_of(rest.take(0)) =~= seq![]);
        assert(messages_of(inputs.take(1)) =~= seq![stop]);
        assert(messages_of(inputs.take(0)).push(stop) =~= seq![stop]);
    } else {
        assert forall|i: int| 0 <= i < n - 1 implies !is_stop_input(#[trigger] rest[i]) by {
            assert(rest[i] == inputs[i + 1]);
        }
        assert(rest[n - 1] == inputs[n]);
        law_forwards_up_to_stop(rest, n - 1);
        assert(inputs.take(n).drop_first() =~= rest.take(n - 1));
        assert(inputs.take(n).first() == inputs[0]);
        assert(inputs.take(n + 1).first() == inputs[0]);
        assert(!is_stop_input(inputs[0]));
        if let Ok(msg) = inputs[0] {
            let ev = Event { msg };
            assert(forwarded(inputs) == seq![ev] + forwarded(rest));
            assert(seq![ev] + messages_of(rest.take(n - 1)).push(stop) =~= (seq![ev]
                + messages_of(rest.take(n - 1))).push(stop));
            assert forall|i: int| 0 <= i < forwarded(inputs).len() - 1 implies !is_stop(
                (#[trigger] forwarded(inputs)[i]).msg@,
            ) by {
                if i > 0 {
                    assert(forwarded(inputs)[i] == forwarded(rest)[i - 1]);
                }
            }
        }
    }
}

/// The listener hands on every message that was read, as it was read. It waits for a reply to it,
/// unless the message is the letters S, T, O and P, after which it listens no longer. Of what could
/// not be read it hands on nothing, and reports why.
pub proof fn law_listener_hands_on_what_was_read(input: Result<String, NetworkMsgError>)
    ensures
        match action_of(input) {
            ListenerAction::ForwardAndReply(ev) => input == Ok::<String, NetworkMsgError>(ev.msg)
                && ev.msg@ != seq!['S', 'T', 'O', 'P'],
            ListenerAction::ForwardAndStop(ev) => input == Ok::<String, NetworkMsgError>(ev.msg)
                && ev.msg@ == seq!['S', 'T', 'O', 'P'],
            ListenerAction::Report(e) => input == Err::<String, NetworkMsgError>(e),
        },
{
    if let Ok(msg) = input {
        law_stop_text(msg@);
    }
}

/// The messages among the inputs are one for each input that could be read, and none for others;
/// what comes later adds to them at the end.
pub proof fn law_messages_one_more(
    inputs: Seq<Result<String, NetworkMsgError>>,
    input: Result<String, NetworkMsgError>,
)
    ensures
        match input {
            Ok(msg) => messages_of(inputs.push(input)) == messages_of(inputs).push(Event { msg }),
            Err(_) => messages_of(inputs.push(input)) == messages_of(inputs),
        },
        messages_of(Seq::empty()) == Seq::<Event>::empty(),
    decreases inputs.len(),
{
    let all = inputs.push(input);
    if inputs.len() == 0 {
        assert(all.drop_first() =~= Seq::empty());
        assert(messages_of(all.drop_first()) =~= Seq::<Event>::empty());
        assert(messages_of(inputs) =~= Seq::<Event>::empty());
        assert(all.first() == input);
        if let Ok(msg) = input {
            assert(messages_of(all) =~= messages_of(inputs).push(Event { msg }));
        }
    } else {
        let rest = inputs.drop_first();
        assert(all.drop_first() =~= rest.push(input));
        assert(all.first() == inputs.first());
        law_messages_one_more(rest, input);
        if let Ok(msg) = input {
            assert(messages_of(all) =~= messages_of(inputs).push(Event { msg }));
        } else {
            assert(messages_of(all) =~= messages_of(inputs));
        }
    }
}

} // verus!
