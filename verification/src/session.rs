//! A relay from its start to its end, and what holds of every such run.

use vstd::prelude::*;
use crate::error::RelayError;
use crate::framing::{
    aligned, byte_views, chunk_records, law_chunking_keeps_records, records, stream_bytes,
};
use crate::json::{Json, JsonValue};
use crate::relay::{
    absorb, action_values, close, feed, initial_state, signals, step, terminate, title_actions,
    Action, ActionValue, Outcome, Relay, RelayState,
};
use crate::request::first_turn;
use crate::signal::SignalValue;

verus! {

/// What a sequence of chunks does to a relay, chunk after chunk.
pub open spec fn run(state: RelayState, chunks: Seq<Seq<u8>>) -> Outcome
    decreases chunks.len(),
{
    if chunks.len() == 0 {
        Outcome { state, actions: seq![] }
    } else {
        let first = feed(state, chunks[0]);
        let rest = run(first.state, chunks.skip(1));
        Outcome { state: rest.state, actions: first.actions + rest.actions }
    }
}

/// A whole relay: the chunks in order, then the end of the stream.
pub open spec fn session(state: RelayState, chunks: Seq<Seq<u8>>) -> Outcome {
    let ran = run(state, chunks);
    let end = close(ran.state);
    Outcome { state: end.state, actions: ran.actions + end.actions }
}

/// What the records of a sequence of chunks mean, in the order of the
/// stream.
pub open spec fn stream_signals(chunks: Seq<Seq<u8>>) -> Seq<SignalValue>
    decreases chunks.len(),
{
    if chunks.len() == 0 {
        seq![]
    } else {
        signals(records(chunks[0])) + stream_signals(chunks.skip(1))
    }
}

/// Whether one of the signals ends the stream.
pub open spec fn has_sentinel(list: Seq<SignalValue>) -> bool
    decreases list.len(),
{
    list.len() > 0 && (list[0] is Terminate || has_sentinel(list.skip(1)))
}

/// The contents of the fragments among the signals that come before the
/// first that ends the stream.
pub open spec fn leading_contents(list: Seq<SignalValue>) -> Seq<Seq<char>>
    decreases list.len(),
{
    if list.len() == 0 {
        seq![]
    } else {
        match list[0] {
            SignalValue::Terminate => seq![],
            SignalValue::Fragment(t) => seq![t] + leading_contents(list.skip(1)),
            SignalValue::Ignore => leading_contents(list.skip(1)),
        }
    }
}

/// The contents of all the fragments among the signals.
pub open spec fn contents(list: Seq<SignalValue>) -> Seq<Seq<char>>
    decreases list.len(),
{
    if list.len() == 0 {
        seq![]
    } else {
        match list[0] {
            SignalValue::Fragment(t) => seq![t] + contents(list.skip(1)),
            _ => contents(list.skip(1)),
        }
    }
}

/// Whether no fragment comes after a signal that ends the stream.
pub open spec fn sentinel_comes_last(list: Seq<SignalValue>) -> bool
    decreases list.len(),
{
    list.len() == 0 || if list[0] is Terminate {
        contents(list.skip(1)).len() == 0
    } else {
        sentinel_comes_last(list.skip(1))
    }
}

/// The texts in one piece.
pub open spec fn joined(texts: Seq<Seq<char>>) -> Seq<char>
    decreases texts.len(),
{
    if texts.len() == 0 {
        seq![]
    } else {
        texts[0] + joined(texts.skip(1))
    }
}

/// One fragment action for each text.
pub open spec fn fragment_actions(texts: Seq<Seq<char>>) -> Seq<ActionValue> {
    texts.map_values(|t: Seq<char>| ActionValue::Fragment(t))
}

/// The state after the texts have been added to the reply.
pub open spec fn extended(state: RelayState, texts: Seq<Seq<char>>) -> RelayState {
    RelayState { reply: state.reply + joined(texts), ..state }
}

/// The texts of the fragment actions, in order.
pub open spec fn emitted(actions: Seq<ActionValue>) -> Seq<Seq<char>>
    decreases actions.len(),
{
    if actions.len() == 0 {
        seq![]
    } else {
        match actions.last() {
            ActionValue::Fragment(t) => emitted(actions.drop_last()).push(t),
            _ => emitted(actions.drop_last()),
        }
    }
}

/// How many of the actions are the termination signal.
pub open spec fn terminations(actions: Seq<ActionValue>) -> nat
    decreases actions.len(),
{
    if actions.len() == 0 {
        0
    } else {
        terminations(actions.drop_last()) + if actions.last() is Terminate {
            1nat
        } else {
            0nat
        }
    }
}

/// How many of the actions start a title task.
pub open spec fn title_starts(actions: Seq<ActionValue>) -> nat
    decreases actions.len(),
{
    if actions.len() == 0 {
        0
    } else {
        title_starts(actions.drop_last()) + if actions.last() is SpawnTitle {
            1nat
        } else {
            0nat
        }
    }
}

/// Signals taken in two parts do what they do taken in one.
proof fn lemma_absorb_add(state: RelayState, a: Seq<SignalValue>, b: Seq<SignalValue>)
    ensures
        absorb(state, a + b).state == absorb(absorb(state, a).state, b).state,
        absorb(state, a + b).actions == absorb(state, a).actions + absorb(
            absorb(state, a).state,
            b,
        ).actions,
    decreases a.len(),
{
    if a.len() == 0 {
        assert(a + b =~= b);
        assert(Seq::<ActionValue>::empty() + absorb(state, b).actions =~= absorb(
            state,
            b,
        ).actions);
    } else if state.terminated {
        assert(absorb(state, b).actions =~= Seq::<ActionValue>::empty());
        assert(Seq::<ActionValue>::empty() + Seq::<ActionValue>::empty() =~= Seq::<
            ActionValue,
        >::empty());
    } else {
        let first = step(state, a[0]);
        assert((a + b)[0] == a[0]);
        assert((a + b).skip(1) =~= a.skip(1) + b);
        lemma_absorb_add(first.state, a.skip(1), b);
        let mid = absorb(first.state, a.skip(1));
        let end = absorb(mid.state, b);
        assert(first.actions + (mid.actions + end.actions) =~= (first.actions + mid.actions)
            + end.actions);
    }
}

/// Feeding chunk after chunk does what the signals of the whole stream do.
proof fn lemma_run_is_absorb(state: RelayState, chunks: Seq<Seq<u8>>)
    ensures
        run(state, chunks) == absorb(state, stream_signals(chunks)),
    decreases chunks.len(),
{
    if chunks.len() == 0 {
    } else {
        let first = feed(state, chunks[0]);
        lemma_run_is_absorb(first.state, chunks.skip(1));
        lemma_absorb_add(state, signals(records(chunks[0])), stream_signals(chunks.skip(1)));
    }
}

/// What signals do to a relay that has not ended: the fragments before the
/// first signal that ends the stream are forwarded in order and added to the
/// reply; if there is such a signal, the relay then ends.
proof fn lemma_absorb_shape(state: RelayState, list: Seq<SignalValue>)
    requires
        !state.terminated,
    ensures
        has_sentinel(list) ==> absorb(state, list).state == terminate(
            extended(state, leading_contents(list)),
        ).state,
        has_sentinel(list) ==> absorb(state, list).actions == fragment_actions(
            leading_contents(list),
        ) + terminate(extended(state, leading_contents(list))).actions,
        !has_sentinel(list) ==> absorb(state, list).state == extended(
            state,
            leading_contents(list),
        ),
        !has_sentinel(list) ==> absorb(state, list).actions == fragment_actions(
            leading_contents(list),
        ),
    decreases list.len(),
{
    let none = Seq::<Seq<char>>::empty();
    if list.len() == 0 {
        assert(state.reply + joined(none) =~= state.reply);
        assert(fragment_actions(none) =~= Seq::<ActionValue>::empty());
    } else {
        let rest = list.skip(1);
        match list[0] {
            SignalValue::Terminate => {
                assert(state.reply + joined(none) =~= state.reply);
                let end = terminate(state);
                assert(absorb(end.state, rest).actions =~= Seq::<ActionValue>::empty());
                assert(end.actions + Seq::<ActionValue>::empty() =~= fragment_actions(none)
                    + end.actions);
            },
            SignalValue::Fragment(t) => {
                let next = step(state, list[0]).state;
                lemma_absorb_shape(next, rest);
                let lead = leading_contents(rest);
                assert((seq![t] + lead).skip(1) =~= lead);
                assert(next.reply + joined(lead) =~= state.reply + joined(seq![t] + lead));
                assert(extended(next, lead) == extended(state, seq![t] + lead));
                assert(seq![ActionValue::Fragment(t)] + fragment_actions(lead)
                    =~= fragment_actions(seq![t] + lead));
                let tail = terminate(extended(state, seq![t] + lead)).actions;
                assert(seq![ActionValue::Fragment(t)] + (fragment_actions(lead) + tail) =~= (
                seq![ActionValue::Fragment(t)] + fragment_actions(lead)) + tail);
            },
            SignalValue::Ignore => {
                lemma_absorb_shape(state, rest);
                let lead = leading_contents(rest);
                let tail = terminate(extended(state, lead)).actions;
                assert(Seq::<ActionValue>::empty() + (fragment_actions(lead) + tail)
                    =~= fragment_actions(lead) + tail);
                assert(Seq::<ActionValue>::empty() + fragment_actions(lead) =~= fragment_actions(
                    lead,
                ));
            },
        }
    }
}

/// Where no fragment comes after a signal that ends the stream, the
/// fragments before that signal are all the fragments.
proof fn lemma_leading_is_all(list: Seq<SignalValue>)
    requires
        sentinel_comes_last(list),
    ensures
        leading_contents(list) == contents(list),
    decreases list.len(),
{
    if list.len() == 0 {
    } else if list[0] is Terminate {
        assert(contents(list.skip(1)) =~= Seq::<Seq<char>>::empty());
    } else {
        lemma_leading_is_all(list.skip(1));
    }
}

/// What a relay is handed: a chunk, or the end of the stream.
pub ghost enum Input {
    Chunk(Seq<u8>),
    End,
}

/// What a sequence of inputs does to a relay, whatever their order.
pub open spec fn drive(state: RelayState, inputs: Seq<Input>) -> Outcome
    decreases inputs.len(),
{
    if inputs.len() == 0 {
        Outcome { state, actions: seq![] }
    } else {
        let first = match inputs[0] {
            Input::Chunk(bytes) => feed(state, bytes),
            Input::End => close(state),
        };
        let rest = drive(first.state, inputs.skip(1));
        Outcome { state: rest.state, actions: first.actions + rest.actions }
    }
}

/// What holds between the state in which a relay was and what came of it:
/// only the reply and the end of the relay change; the reply has grown by
/// the fragments that were forwarded, in order; the termination signal is
/// out once if the relay ended on the way, and the title task was started
/// once if it ended on the way and the request opened a conversation; a
/// relay that had ended did nothing.
pub open spec fn accounted(start: RelayState, out: Outcome) -> bool {
    &&& out.state == RelayState {
        reply: start.reply + joined(emitted(out.actions)),
        terminated: out.state.terminated,
        ..start
    }
    &&& start.terminated ==> out.state.terminated && out.actions.len() == 0
    &&& terminations(out.actions) == if out.state.terminated && !start.terminated {
        1nat
    } else {
        0nat
    }
    &&& title_starts(out.actions) == if out.state.terminated && !start.terminated
        && start.first_turn {
        1nat
    } else {
        0nat
    }
}

/// Texts joined part by part are the parts joined.
proof fn lemma_joined_add(a: Seq<Seq<char>>, b: Seq<Seq<char>>)
    ensures
        joined(a + b) == joined(a) + joined(b),
    decreases a.len(),
{
    if a.len() == 0 {
        assert(a + b =~= b);
        assert(joined(a) + joined(b) =~= joined(b));
    } else {
        assert((a + b).skip(1) =~= a.skip(1) + b);
        lemma_joined_add(a.skip(1), b);
        assert(a[0] + (joined(a.skip(1)) + joined(b)) =~= (a[0] + joined(a.skip(1))) + joined(b));
    }
}

/// What is counted in two lists of actions is counted in their sequence.
proof fn lemma_counts_add(a: Seq<ActionValue>, b: Seq<ActionValue>)
    ensures
        emitted(a + b) == emitted(a) + emitted(b),
        terminations(a + b) == terminations(a) + terminations(b),
        title_starts(a + b) == title_starts(a) + title_starts(b),
    decreases b.len(),
{
    if b.len() == 0 {
        assert(a + b =~= a);
        assert(emitted(a) + emitted(b) =~= emitted(a));
    } else {
        assert((a + b).drop_last() =~= a + b.drop_last());
        assert((a + b).last() == b.last());
        lemma_counts_add(a, b.drop_last());
        assert(emitted(a + b) =~= emitted(a) + emitted(b));
    }
}

/// What is counted in one action.
proof fn lemma_counts_one(action: ActionValue)
    ensures
        emitted(seq![action]) == match action {
            ActionValue::Fragment(t) => seq![t],
            _ => Seq::<Seq<char>>::empty(),
        },
        terminations(seq![action]) == if action is Terminate {
            1nat
        } else {
            0nat
        },
        title_starts(seq![action]) == if action is SpawnTitle {
            1nat
        } else {
            0nat
        },
{
    let one = seq![action];
    assert(one.drop_last() =~= Seq::<ActionValue>::empty());
    assert(one.last() == action);
    assert(emitted(one.drop_last()) =~= Seq::<Seq<char>>::empty());
    assert(terminations(one.drop_last()) == 0);
    assert(title_starts(one.drop_last()) == 0);
    match action {
        ActionValue::Fragment(t) => {
            assert(emitted(one) =~= seq![t]);
        },
        _ => {},
    }
}

/// Fragment actions forward their texts and nothing else.
proof fn lemma_counts_fragments(texts: Seq<Seq<char>>)
    ensures
        emitted(fragment_actions(texts)) == texts,
        terminations(fragment_actions(texts)) == 0,
        title_starts(fragment_actions(texts)) == 0,
    decreases texts.len(),
{
    if texts.len() == 0 {
        assert(emitted(fragment_actions(texts)) =~= texts);
    } else {
        lemma_counts_fragments(texts.drop_last());
        assert(fragment_actions(texts).drop_last() =~= fragment_actions(texts.drop_last()));
        assert(emitted(fragment_actions(texts)) =~= texts);
    }
}

/// The end of a relay is one termination signal, and one start of the
/// title task where the request opened a conversation.
proof fn lemma_counts_terminate(state: RelayState)
    ensures
        emitted(terminate(state).actions) == Seq::<Seq<char>>::empty(),
        terminations(terminate(state).actions) == 1,
        title_starts(terminate(state).actions) == if state.first_turn {
            1nat
        } else {
            0nat
        },
{
    let stop = seq![ActionValue::Terminate];
    lemma_counts_one(ActionValue::Terminate);
    lemma_counts_add(stop, title_actions(state));
    if state.first_turn {
        lemma_counts_one(title_actions(state)[0]);
        assert(title_actions(state) =~= seq![title_actions(state)[0]]);
    }
    assert(emitted(stop) + emitted(title_actions(state)) =~= Seq::<Seq<char>>::empty());
}

/// Signals leave a relay accounted for.
proof fn lemma_absorb_accounted(state: RelayState, list: Seq<SignalValue>)
    ensures
        accounted(state, absorb(state, list)),
{
    let none = Seq::<Seq<char>>::empty();
    if state.terminated {
        assert(state.reply + joined(none) =~= state.reply);
    } else {
        lemma_absorb_shape(state, list);
        let lead = leading_contents(list);
        lemma_counts_fragments(lead);
        if has_sentinel(list) {
            let tail = terminate(extended(state, lead)).actions;
            lemma_counts_terminate(extended(state, lead));
            lemma_counts_add(fragment_actions(lead), tail);
            assert(lead + none =~= lead);
        }
    }
}

/// The end of the stream leaves a relay accounted for.
proof fn lemma_close_accounted(state: RelayState)
    ensures
        accounted(state, close(state)),
{
    let none = Seq::<Seq<char>>::empty();
    assert(state.reply + joined(none) =~= state.reply);
    if !state.terminated {
        lemma_counts_terminate(state);
    }
}

/// Two stretches that are accounted for make one that is.
proof fn lemma_accounted_then(start: RelayState, first: Outcome, second: Outcome)
    requires
        accounted(start, first),
        accounted(first.state, second),
    ensures
        accounted(
            start,
            Outcome { state: second.state, actions: first.actions + second.actions },
        ),
{
    lemma_counts_add(first.actions, second.actions);
    lemma_joined_add(emitted(first.actions), emitted(second.actions));
    assert(start.reply + (joined(emitted(first.actions)) + joined(emitted(second.actions)))
        =~= (start.reply + joined(emitted(first.actions))) + joined(emitted(second.actions)));
    if start.terminated {
        assert(first.actions + second.actions =~= Seq::<ActionValue>::empty());
    }
}

/// Every sequence of inputs leaves a relay accounted for.
proof fn lemma_drive_accounted(state: RelayState, inputs: Seq<Input>)
    ensures
        accounted(state, drive(state, inputs)),
    decreases inputs.len(),
{
    if inputs.len() == 0 {
        assert(state.reply + joined(Seq::<Seq<char>>::empty()) =~= state.reply);
    } else {
        let first = match inputs[0] {
            Input::Chunk(bytes) => feed(state, bytes),
            Input::End => close(state),
        };
        match inputs[0] {
            Input::Chunk(bytes) => {
                lemma_absorb_accounted(state, signals(records(bytes)));
            },
            Input::End => {
                lemma_close_accounted(state);
            },
        }
        lemma_drive_accounted(first.state, inputs.skip(1));
        lemma_accounted_then(state, first, drive(first.state, inputs.skip(1)));
    }
}

/// The chunks of a session as inputs: each chunk, then the end.
pub open spec fn session_inputs(chunks: Seq<Seq<u8>>) -> Seq<Input> {
    chunks.map_values(|c: Seq<u8>| Input::Chunk(c)).push(Input::End)
}

/// A session is the drive of its chunks and the end of the stream.
proof fn lemma_session_is_drive(state: RelayState, chunks: Seq<Seq<u8>>)
    ensures
        session(state, chunks) == drive(state, session_inputs(chunks)),
    decreases chunks.len(),
{
    let inputs = session_inputs(chunks);
    let left = session(state, chunks);
    let right = drive(state, inputs);
    if chunks.len() == 0 {
        assert(inputs.skip(1) =~= Seq::<Input>::empty());
        assert(inputs[0] == Input::End);
        let end = close(state);
        assert(drive(end.state, inputs.skip(1)).actions =~= Seq::<ActionValue>::empty());
        assert(left.actions =~= right.actions);
    } else {
        let first = feed(state, chunks[0]);
        assert(inputs[0] == Input::Chunk(chunks[0]));
        assert(inputs.skip(1) =~= session_inputs(chunks.skip(1)));
        lemma_session_is_drive(first.state, chunks.skip(1));
        let ran = run(first.state, chunks.skip(1));
        let end = close(ran.state);
        assert((first.actions + ran.actions) + end.actions =~= first.actions + (ran.actions
            + end.actions));
        assert(left.actions =~= right.actions);
    }
    assert(left.state == right.state);
}

/// The termination signal goes out at most once, whatever chunks and ends
/// of stream a relay is handed and in whatever order: once if the relay
/// ended on the way, never if it had ended before or has not ended yet.
pub proof fn law_termination_at_most_once(state: RelayState, inputs: Seq<Input>)
    ensures
        terminations(drive(state, inputs).actions) <= 1,
        terminations(drive(state, inputs).actions) == 1 <==> !state.terminated && drive(
            state,
            inputs,
        ).state.terminated,
{
    lemma_drive_accounted(state, inputs);
}

/// The title task is started at most once, whatever chunks and ends of
/// stream a relay is handed and in whatever order: once if the relay ended
/// on the way and the request opened a conversation, never otherwise.
pub proof fn law_title_task_with_termination(state: RelayState, inputs: Seq<Input>)
    ensures
        title_starts(drive(state, inputs).actions) <= 1,
        title_starts(drive(state, inputs).actions) == 1 <==> state.first_turn
            && !state.terminated && drive(state, inputs).state.terminated,
{
    lemma_drive_accounted(state, inputs);
}

/// A relay that has ended stays as it is and asks for nothing more.
pub proof fn law_nothing_after_termination(state: RelayState, inputs: Seq<Input>)
    requires
        state.terminated,
    ensures
        drive(state, inputs).state == state,
        drive(state, inputs).actions == Seq::<ActionValue>::empty(),
{
    lemma_drive_accounted(state, inputs);
    assert(state.reply + joined(Seq::<Seq<char>>::empty()) =~= state.reply);
    assert(drive(state, inputs).actions =~= Seq::<ActionValue>::empty());
}

/// The reply is what it was, followed by the forwarded fragments in the
/// order in which they were forwarded; nothing else of the state changes
/// but that the relay may have ended.
pub proof fn law_reply_is_joined_fragments(state: RelayState, inputs: Seq<Input>)
    ensures
        drive(state, inputs).state.reply == state.reply + joined(
            emitted(drive(state, inputs).actions),
        ),
        drive(state, inputs).state.body == state.body,
        drive(state, inputs).state.model == state.model,
        drive(state, inputs).state.token == state.token,
        drive(state, inputs).state.first_turn == state.first_turn,
{
    lemma_drive_accounted(state, inputs);
}

/// A session of a fresh relay starts the title task once if the request
/// opened a conversation, and never if it did not, whether the stream
/// ended by its sentinel or by closing.
pub proof fn law_title_task_iff_first_turn(
    body: JsonValue,
    model: Seq<char>,
    token: Seq<char>,
    chunks: Seq<Seq<u8>>,
)
    ensures
        title_starts(session(initial_state(body, model, token), chunks).actions) == if first_turn(
            body,
        ) {
            1nat
        } else {
            0nat
        },
        terminations(session(initial_state(body, model, token), chunks).actions) == 1,
        session(initial_state(body, model, token), chunks).state.terminated,
{
    let start = initial_state(body, model, token);
    lemma_session_is_drive(start, chunks);
    lemma_drive_accounted(start, session_inputs(chunks));
    lemma_close_accounted(run(start, chunks).state);
}

/// A session of a relay that has not ended forwards, in the order of the
/// stream, the content of every fragment that comes before the first
/// sentinel, then the termination signal, and then starts the title task
/// where the request opened a conversation, with the reply as it stands.
pub proof fn law_session_shape(state: RelayState, chunks: Seq<Seq<u8>>)
    requires
        !state.terminated,
    ensures
        session(state, chunks).actions == fragment_actions(
            leading_contents(stream_signals(chunks)),
        ) + terminate(extended(state, leading_contents(stream_signals(chunks)))).actions,
        session(state, chunks).state == terminate(
            extended(state, leading_contents(stream_signals(chunks))),
        ).state,
{
    let list = stream_signals(chunks);
    lemma_run_is_absorb(state, chunks);
    lemma_absorb_shape(state, list);
    let ran = absorb(state, list);
    if has_sentinel(list) {
        assert(ran.actions + Seq::<ActionValue>::empty() =~= ran.actions);
    }
}

/// Where no fragment follows a sentinel, a session forwards the content of
/// every fragment of the stream, in order, and the termination signal comes
/// after the last of them, once.
pub proof fn law_every_fragment_then_termination(state: RelayState, chunks: Seq<Seq<u8>>)
    requires
        !state.terminated,
        sentinel_comes_last(stream_signals(chunks)),
    ensures
        session(state, chunks).actions == fragment_actions(contents(stream_signals(chunks)))
            + terminate(extended(state, contents(stream_signals(chunks)))).actions,
        emitted(session(state, chunks).actions) == contents(stream_signals(chunks)),
        session(state, chunks).state.reply == state.reply + joined(
            contents(stream_signals(chunks)),
        ),
{
    let list = stream_signals(chunks);
    law_session_shape(state, chunks);
    lemma_leading_is_all(list);
    let all = contents(list);
    lemma_counts_fragments(all);
    lemma_counts_terminate(extended(state, all));
    lemma_counts_add(fragment_actions(all), terminate(extended(state, all)).actions);
    assert(all + Seq::<Seq<char>>::empty() =~= all);
}

/// The signals of a stream are what the records of its chunks mean, chunk
/// after chunk.
proof fn lemma_stream_signals(chunks: Seq<Seq<u8>>)
    ensures
        stream_signals(chunks) == signals(chunk_records(chunks)),
    decreases chunks.len(),
{
    if chunks.len() == 0 {
        assert(signals(chunk_records(chunks)) =~= Seq::<SignalValue>::empty());
    } else {
        lemma_stream_signals(chunks.skip(1));
        assert(signals(records(chunks[0]) + chunk_records(chunks.skip(1))) =~= signals(
            records(chunks[0]),
        ) + signals(chunk_records(chunks.skip(1))));
    }
}

/// Where no record is split across two chunks and no fragment follows a
/// sentinel, a session forwards the content of every fragment among the
/// records of the stream, in the order of the stream, and after the last of
/// them the termination signal, once. The reply is those contents in one
/// piece, after what it held before.
pub proof fn law_unsplit_stream_is_relayed_whole(state: RelayState, chunks: Seq<Seq<u8>>)
    requires
        !state.terminated,
        forall|i: int| 0 <= i < chunks.len() - 1 ==> aligned(#[trigger] chunks[i]),
        sentinel_comes_last(signals(records(stream_bytes(chunks)))),
    ensures
        session(state, chunks).actions == fragment_actions(
            contents(signals(records(stream_bytes(chunks)))),
        ) + terminate(
            extended(state, contents(signals(records(stream_bytes(chunks))))),
        ).actions,
        emitted(session(state, chunks).actions) == contents(
            signals(records(stream_bytes(chunks))),
        ),
        terminations(session(state, chunks).actions) == 1,
        session(state, chunks).state.reply == state.reply + joined(
            contents(signals(records(stream_bytes(chunks)))),
        ),
{
    law_chunking_keeps_records(chunks);
    lemma_stream_signals(chunks);
    law_every_fragment_then_termination(state, chunks);
    lemma_session_is_drive(state, chunks);
    lemma_drive_accounted(state, session_inputs(chunks));
}

/// Relays a stream that is at hand as a whole: the relay is prepared for
/// the request, takes the chunks in order and then the end of the stream.
/// What comes back are the actions that were due, in order. Fails with
/// `MalformedRequest`, before any chunk is looked at, if and only if the
/// request document is not an object.
pub fn proxy_stream(body: Json, model: String, token: String, chunks: &[Vec<u8>]) -> (relayed:
    Result<Vec<Action>, RelayError>)
    ensures
        body@ is Object ==> relayed is Ok,
        !(body@ is Object) ==> relayed is Err && relayed->Err_0 == RelayError::MalformedRequest,
        relayed matches Ok(actions) ==> action_values(actions@) == session(
            initial_state(body@, model@, token@),
            byte_views(chunks@),
        ).actions,
{
    let ghost start = initial_state(body@, model@, token@);
    let ghost all = byte_views(chunks@);
    let mut relay = match Relay::new(body, model, token) {
        Ok(relay) => relay,
        Err(e) => {
            return Err(e);
        },
    };
    let mut actions: Vec<Action> = Vec::new();
    let mut i: usize = 0;
    proof {
        assert(all.skip(0) =~= all);
        assert(Seq::<ActionValue>::empty() + run(start, all).actions =~= run(start, all).actions);
    }
    while i < chunks.len()
        invariant
            i <= chunks.len(),
            all == byte_views(chunks@),
            run(start, all).state == run(relay@, all.skip(i as int)).state,
            run(start, all).actions == action_values(actions@) + run(
                relay@,
                all.skip(i as int),
            ).actions,
        decreases chunks.len() - i,
    {
        let ghost before = action_values(actions@);
        let ghost state = relay@;
        let mut due = relay.feed(chunks[i].as_slice());
        proof {
            let here = all.skip(i as int);
            assert(here[0] == chunks@[i as int]@);
            assert(here.skip(1) =~= all.skip(i + 1));
            let first = feed(state, here[0]);
            let next = run(first.state, all.skip(i + 1));
            assert(before + (first.actions + next.actions) =~= (before + first.actions)
                + next.actions);
            assert(action_values(actions@ + due@) =~= before + first.actions);
        }
        actions.append(&mut due);
        i += 1;
    }
    let ghost ran = action_values(actions@);
    let mut end = relay.close();
    proof {
        assert(ran + Seq::<ActionValue>::empty() =~= ran);
        assert(action_values(actions@ + end@) =~= ran + action_values(end@));
    }
    actions.append(&mut end);
    Ok(actions)
}

} // verus!
