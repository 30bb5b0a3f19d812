//! The relay: from the chunks of the upstream answer to what the display
//! surface is sent.
//!
//! The relay does no input or output. Its owner hands it each chunk as it
//! arrives and tells it when the stream has closed; the relay answers with
//! the actions that are due, in the order in which they are due. The owner
//! carries them out one after the other and gives up at the first that
//! fails.

use vstd::prelude::*;
use vstd::string::StringExecFns;
use crate::error::RelayError;
use crate::framing::{byte_views, decode_chunk, records};
use crate::json::{Json, JsonValue};
use crate::request::{first_turn, insert_model, is_first_turn, with_model};
use crate::signal::{interpret, signal_of, Signal, SignalValue, SENTINEL};
use crate::title::{create_title_body, title_body};

verus! {

/// The channel on which the display surface is sent the reply.
pub const STREAM_EVENT: &'static str = "stream-response";

/// The channel on which the display surface is sent the title.
pub const TITLE_EVENT: &'static str = "update_chat_title";

/// What a title task needs: the body of its request, and the model and the
/// credential of the conversation.
#[derive(Debug, PartialEq, Eq)]
pub struct TitleJob {
    pub body: Json,
    pub model: String,
    pub token: String,
}

/// The mathematical value of a [`TitleJob`].
pub ghost struct TitleJobValue {
    pub body: JsonValue,
    pub model: Seq<char>,
    pub token: Seq<char>,
}

impl View for TitleJob {
    type V = TitleJobValue;

    open spec fn view(&self) -> TitleJobValue {
        TitleJobValue { body: self.body@, model: self.model@, token: self.token@ }
    }
}

/// One thing that the owner of a relay is to do.
#[derive(Debug, PartialEq, Eq)]
pub enum Action {
    /// Send this piece of the reply to the display surface.
    Fragment(String),
    /// Send the termination signal to the display surface.
    Terminate,
    /// Start the title task and do not wait for it.
    SpawnTitle(TitleJob),
}

/// The mathematical value of an [`Action`].
pub ghost enum ActionValue {
    Fragment(Seq<char>),
    Terminate,
    SpawnTitle(TitleJobValue),
}

impl View for Action {
    type V = ActionValue;

    open spec fn view(&self) -> ActionValue {
        match self {
            Action::Fragment(t) => ActionValue::Fragment(t@),
            Action::Terminate => ActionValue::Terminate,
            Action::SpawnTitle(job) => ActionValue::SpawnTitle(job@),
        }
    }
}

impl Action {
    /// The text that this action sends on the channel of the reply: the
    /// fragment, or the sentinel for the termination signal. The start of a
    /// title task sends nothing there.
    pub open spec fn emission_spec(self) -> Option<Seq<char>> {
        match self {
            Action::Fragment(t) => Some(t@),
            Action::Terminate => Some(SENTINEL@),
            Action::SpawnTitle(_) => None,
        }
    }

    /// The text that this action sends on the channel of the reply, if it
    /// sends one.
    pub fn emission(&self) -> (text: Option<&str>)
        ensures
            text is Some == self.emission_spec() is Some,
            text matches Some(t) ==> self.emission_spec() == Some(t@),
    {
        match self {
            Action::Fragment(t) => Some(t.as_str()),
            Action::Terminate => Some(SENTINEL),
            Action::SpawnTitle(_) => None,
        }
    }
}

/// What a list of actions holds.
pub open spec fn action_values(actions: Seq<Action>) -> Seq<ActionValue> {
    actions.map_values(|a: Action| a@)
}

/// The state of a relay.
pub ghost struct RelayState {
    /// The body of the upstream request.
    pub body: JsonValue,
    pub model: Seq<char>,
    pub token: Seq<char>,
    /// Whether the request opened a conversation.
    pub first_turn: bool,
    /// The reply of the assistant as far as it has come.
    pub reply: Seq<char>,
    /// Whether the termination signal is out.
    pub terminated: bool,
}

/// The state of a relay and the actions that led to it.
pub ghost struct Outcome {
    pub state: RelayState,
    pub actions: Seq<ActionValue>,
}

/// The state in which a relay starts.
pub open spec fn initial_state(body: JsonValue, model: Seq<char>, token: Seq<char>) -> RelayState {
    RelayState {
        body: with_model(body, model),
        model,
        token,
        first_turn: first_turn(body),
        reply: Seq::empty(),
        terminated: false,
    }
}

/// The start of the title task, where one is due.
pub open spec fn title_actions(state: RelayState) -> Seq<ActionValue> {
    if state.first_turn {
        seq![
            ActionValue::SpawnTitle(
                TitleJobValue {
                    body: title_body(state.body, state.reply),
                    model: state.model,
                    token: state.token,
                },
            ),
        ]
    } else {
        seq![]
    }
}

/// The end of a relay that has not ended yet: the termination signal, then
/// the start of the title task where one is due.
pub open spec fn terminate(state: RelayState) -> Outcome {
    Outcome {
        state: RelayState { terminated: true, ..state },
        actions: seq![ActionValue::Terminate] + title_actions(state),
    }
}

/// What one signal does to a relay that has not ended.
pub open spec fn step(state: RelayState, signal: SignalValue) -> Outcome {
    match signal {
        SignalValue::Fragment(t) => Outcome {
            state: RelayState { reply: state.reply + t, ..state },
            actions: seq![ActionValue::Fragment(t)],
        },
        SignalValue::Terminate => terminate(state),
        SignalValue::Ignore => Outcome { state, actions: seq![] },
    }
}

/// What a sequence of signals does to a relay: they are taken in order, and
/// none is looked at once the relay has ended.
pub open spec fn absorb(state: RelayState, signals: Seq<SignalValue>) -> Outcome
    decreases signals.len(),
{
    if signals.len() == 0 || state.terminated {
        Outcome { state, actions: seq![] }
    } else {
        let first = step(state, signals[0]);
        let rest = absorb(first.state, signals.skip(1));
        Outcome { state: rest.state, actions: first.actions + rest.actions }
    }
}

/// One signal does what its step does, unless the relay has ended.
proof fn lemma_absorb_one(state: RelayState, signal: SignalValue)
    ensures
        state.terminated ==> absorb(state, seq![signal]).state == state,
        state.terminated ==> absorb(state, seq![signal]).actions == Seq::<ActionValue>::empty(),
        !state.terminated ==> absorb(state, seq![signal]).state == step(state, signal).state,
        !state.terminated ==> absorb(state, seq![signal]).actions == step(state, signal).actions,
{
    let one = seq![signal];
    let first = step(state, signal);
    assert(one[0] == signal);
    assert(one.skip(1) =~= Seq::<SignalValue>::empty());
    assert(absorb(first.state, one.skip(1)).actions =~= Seq::<ActionValue>::empty());
    assert(absorb(first.state, one.skip(1)).state == first.state);
    assert(first.actions + Seq::<ActionValue>::empty() =~= first.actions);
}

/// What the payloads of a sequence of records mean.
pub open spec fn signals(payloads: Seq<Seq<u8>>) -> Seq<SignalValue> {
    payloads.map_values(|p: Seq<u8>| signal_of(p))
}

/// What one chunk does to a relay.
pub open spec fn feed(state: RelayState, chunk: Seq<u8>) -> Outcome {
    absorb(state, signals(records(chunk)))
}

/// What the end of the stream does to a relay.
pub open spec fn close(state: RelayState) -> Outcome {
    if state.terminated {
        Outcome { state, actions: seq![] }
    } else {
        terminate(state)
    }
}

/// One relay of one upstream answer.
pub struct Relay {
    body: Json,
    model: String,
    token: String,
    first_turn: bool,
    reply: String,
    terminated: bool,
}

impl View for Relay {
    type V = RelayState;

    closed spec fn view(&self) -> RelayState {
        RelayState {
            body: self.body@,
            model: self.model@,
            token: self.token@,
            first_turn: self.first_turn,
            reply: self.reply@,
            terminated: self.terminated,
        }
    }
}

impl Relay {
    /// Prepares a relay for the request document `body`: the model is set
    /// in the document, and whether the request opens a conversation is
    /// noted. Fails with `MalformedRequest` if and only if the document is
    /// not an object.
    pub fn new(body: Json, model: String, token: String) -> (made: Result<Relay, RelayError>)
        ensures
            body@ is Object ==> made is Ok,
            !(body@ is Object) ==> made is Err && made->Err_0 == RelayError::MalformedRequest,
            made matches Ok(relay) ==> relay@ == initial_state(body@, model@, token@),
    {
        let first_turn = is_first_turn(&body);
        match insert_model(body, model.as_str()) {
            Ok(prepared) => Ok(
                Relay {
                    body: prepared,
                    model,
                    token,
                    first_turn,
                    reply: String::new(),
                    terminated: false,
                },
            ),
            Err(e) => Err(e),
        }
    }

    /// The body of the upstream request.
    pub fn request_body(&self) -> (body: &Json)
        ensures
            body@ == self@.body,
    {
        &self.body
    }

    /// The model of the conversation.
    pub fn model(&self) -> (model: &str)
        ensures
            model@ == self@.model,
    {
        self.model.as_str()
    }

    /// The credential of the conversation.
    pub fn token(&self) -> (token: &str)
        ensures
            token@ == self@.token,
    {
        self.token.as_str()
    }

    /// Whether the request opened a conversation.
    pub fn is_first_turn(&self) -> (flag: bool)
        ensures
            flag == self@.first_turn,
    {
        self.first_turn
    }

    /// The reply of the assistant as far as it has come.
    pub fn reply(&self) -> (reply: &str)
        ensures
            reply@ == self@.reply,
    {
        self.reply.as_str()
    }

    /// Whether the termination signal is out.
    pub fn is_terminated(&self) -> (flag: bool)
        ensures
            flag == self@.terminated,
    {
        self.terminated
    }

    /// Ends the relay, if it has not ended: the termination signal is due,
    /// and after it the start of the title task if the request opened a
    /// conversation.
    fn finish(&mut self, actions: &mut Vec<Action>)
        requires
            !old(self)@.terminated,
        ensures
            final(self)@ == terminate(old(self)@).state,
            action_values(final(actions)@) == action_values(old(actions)@) + terminate(
                old(self)@,
            ).actions,
    {
        let ghost before = action_values(actions@);
        self.terminated = true;
        actions.push(Action::Terminate);
        if self.first_turn {
            match create_title_body(&self.body, self.reply.as_str()) {
                Ok(body) => {
                    let job = TitleJob {
                        body,
                        model: self.model.clone(),
                        token: self.token.clone(),
                    };
                    actions.push(Action::SpawnTitle(job));
                },
                Err(_) => {},
            }
        }
        proof {
            assert(action_values(actions@) =~= before + terminate(old(self)@).actions);
        }
    }

    /// Takes one signal. A fragment is forwarded and added to the reply; the
    /// signal that ends the stream ends the relay; a relay that has ended
    /// takes nothing.
    pub fn take(&mut self, signal: Signal) -> (actions: Vec<Action>)
        ensures
            final(self)@ == absorb(old(self)@, seq![signal@]).state,
            action_values(actions@) == absorb(old(self)@, seq![signal@]).actions,
    {
        let mut actions: Vec<Action> = Vec::new();
        proof {
            lemma_absorb_one(self@, signal@);
        }
        if !self.terminated {
            match signal {
                Signal::Fragment(t) => {
                    self.reply.append(t.as_str());
                    actions.push(Action::Fragment(t));
                },
                Signal::Terminate => {
                    self.finish(&mut actions);
                },
                Signal::Ignore => {},
            }
        }
        proof {
            assert(action_values(actions@) =~= absorb(old(self)@, seq![signal@]).actions);
        }
        actions
    }

    /// Takes one chunk of the upstream answer. The actions that are due come
    /// back in order: a fragment for each record that carries content, up
    /// to the record that ends the stream, and for that one the termination
    /// signal and, where the request opened a conversation, the start of
    /// the title task. Each fragment is added to the reply. A relay that
    /// has ended takes nothing.
    pub fn feed(&mut self, chunk: &[u8]) -> (actions: Vec<Action>)
        ensures
            final(self)@ == feed(old(self)@, chunk@).state,
            action_values(actions@) == feed(old(self)@, chunk@).actions,
    {
        let mut actions: Vec<Action> = Vec::new();
        let payloads = decode_chunk(chunk);
        let ghost all = signals(records(chunk@));
        let mut i: usize = 0;
        proof {
            assert(all.skip(0) =~= all);
            assert(all.len() == payloads.len());
        }
        while i < payloads.len() && !self.terminated
            invariant
                i <= payloads.len(),
                all == signals(byte_views(payloads@)),
                absorb(old(self)@, all).state == absorb(self@, all.skip(i as int)).state,
                absorb(old(self)@, all).actions == action_values(actions@) + absorb(
                    self@,
                    all.skip(i as int),
                ).actions,
            decreases payloads.len() - i,
        {
            let ghost before = action_values(actions@);
            let ghost state = self@;
            let signal = interpret(payloads[i].as_slice());
            let mut due = self.take(signal);
            proof {
                let here = all.skip(i as int);
                assert(here[0] == signal@);
                assert(here.skip(1) =~= all.skip(i + 1));
                lemma_absorb_one(state, signal@);
                let first = step(state, signal@);
                let next = absorb(first.state, all.skip(i + 1));
                assert(before + (first.actions + next.actions) =~= (before + first.actions)
                    + next.actions);
                assert(action_values(actions@ + due@) =~= before + first.actions);
            }
            actions.append(&mut due);
            i += 1;
        }
        proof {
            assert(action_values(actions@) + Seq::<ActionValue>::empty() =~= action_values(
                actions@,
            ));
        }
        actions
    }

    /// Takes the end of the stream. If the termination signal is not out
    /// yet, it is due now, and after it the start of the title task where
    /// the request opened a conversation. If it is out, nothing is due.
    pub fn close(&mut self) -> (actions: Vec<Action>)
        ensures
            final(self)@ == close(old(self)@).state,
            action_values(actions@) == close(old(self)@).actions,
    {
        let mut actions: Vec<Action> = Vec::new();
        if !self.terminated {
            self.finish(&mut actions);
        }
        proof {
            assert(action_values(actions@) =~= close(old(self)@).actions);
        }
        actions
    }
}

} // verus!
