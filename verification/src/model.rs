//! The session as a state machine.
//!
//! Every event (an intent of the user, news from the socket, an answer to a
//! question) is handled by [`Model::update`], which changes the session and
//! returns the actions that the surrounding program has to perform, in
//! order. Nothing here performs them: [`ModelView::step`] says, for every
//! session and every event, what the session becomes and which actions are
//! due.

use crate::feed::{Request, RequestView, WsMessage, WsMessageView, INVALID_SYMBOL};
use crate::history::{lemma_recorded_all_well_kept, recorded_all, run_of, well_kept};
use crate::state::{State, StateView};
use crate::types::{
    health_of, symbol_texts, tick_views, ticker_health, ApiKey, Symbol, TickerHealth, TickerInfo,
};
use vstd::prelude::*;

verus! {

/// Address of the feed, up to the credential that follows it.
pub const FEED_URL: &'static str = "wss://ws.finnhub.io?token=";

/// The question whether the most recently added symbol may go, up to the
/// symbol that follows it.
pub const UNTRACK_PROMPT: &'static str =
    "Invalid symbol detected. Do you want to untrack the last added one: [";

/// What follows the symbol in that question.
pub const UNTRACK_PROMPT_END: &'static str = "]";

/// The question whether to connect again after the connection was lost.
pub const RECONNECT_PROMPT: &'static str = "The Websocket connection failed \u{1F61E}\n\n\
    This might be because our API key is wrong, \
    but if you were previously connected, you might want to try reconnecting?";

/// The notice that an opened socket was reported while none was held.
pub const NO_SOCKET_ALERT: &'static str =
    "There is no websocket connection despite it being reported open";

/// Where the connection to the feed stands.
#[derive(Clone, Copy, Debug, PartialEq, Eq, Structural)]
pub enum Connection {
    Disconnected,
    Connecting,
    Connected,
}

/// A yes-or-no question to the user.
#[derive(Clone, Copy, Debug, PartialEq, Eq, Structural)]
pub enum Question {
    /// May the most recently added symbol be removed?
    UntrackLastAdded,
    /// Shall the lost connection be opened again?
    Reconnect,
}

/// An event.
#[derive(Debug)]
pub enum Msg {
    /// The user typed a credential.
    ApiKeyUpdate(ApiKey),
    /// The user typed into the field for a new symbol.
    UpdateSymbolToTrack(Symbol),
    /// The user asked to track what was typed.
    TrackSymbol,
    /// The user asked to connect.
    ApiKeyConnect,
    /// The user asked to disconnect.
    ApiKeyDisconnect,
    /// The user asked to remove the tracked entry at a position.
    UnTrackSymbolAtIdx(usize),
    /// A frame arrived: decoded, or the reason why it could not be.
    WsIncoming(Result<WsMessage, String>),
    /// The socket is open.
    WsOpened,
    /// The socket failed or was closed.
    WsDead,
    /// Nothing happened.
    Nope,
    /// A socket that was asked for could not be made, for the given reason.
    WsRefused(String),
    /// The user answered a question.
    Answered(Question, bool),
}

/// What a [`Msg`] says.
pub enum MsgView {
    ApiKeyUpdate(Seq<char>),
    UpdateSymbolToTrack(Seq<char>),
    TrackSymbol,
    ApiKeyConnect,
    ApiKeyDisconnect,
    UnTrackSymbolAtIdx(usize),
    WsIncoming(Result<WsMessageView, Seq<char>>),
    WsOpened,
    WsDead,
    Nope,
    WsRefused(Seq<char>),
    Answered(Question, bool),
}

impl View for Msg {
    type V = MsgView;

    open spec fn view(&self) -> MsgView {
        match self {
            Msg::ApiKeyUpdate(key) => MsgView::ApiKeyUpdate(key@),
            Msg::UpdateSymbolToTrack(symbol) => MsgView::UpdateSymbolToTrack(symbol@),
            Msg::TrackSymbol => MsgView::TrackSymbol,
            Msg::ApiKeyConnect => MsgView::ApiKeyConnect,
            Msg::ApiKeyDisconnect => MsgView::ApiKeyDisconnect,
            Msg::UnTrackSymbolAtIdx(idx) => MsgView::UnTrackSymbolAtIdx(*idx),
            Msg::WsIncoming(Ok(message)) => MsgView::WsIncoming(Ok(message@)),
            Msg::WsIncoming(Err(reason)) => MsgView::WsIncoming(Err(reason@)),
            Msg::WsOpened => MsgView::WsOpened,
            Msg::WsDead => MsgView::WsDead,
            Msg::Nope => MsgView::Nope,
            Msg::WsRefused(reason) => MsgView::WsRefused(reason@),
            Msg::Answered(question, yes) => MsgView::Answered(*question, *yes),
        }
    }
}

/// Something that the surrounding program has to do.
#[derive(Debug, PartialEq, Eq)]
pub enum Action {
    /// Store the session state.
    Persist,
    /// Open a socket to the given address and keep it as the one socket.
    Connect { url: String },
    /// Let go of the socket, if one is held.
    Disconnect,
    /// Send a request through the socket.
    Send(Request),
    /// Show a notice and wait until it is acknowledged.
    Alert(String),
    /// Ask a question, and report the answer as [`Msg::Answered`].
    Confirm { question: Question, text: String },
}

/// What an [`Action`] says.
pub enum ActionView {
    Persist,
    Connect { url: Seq<char> },
    Disconnect,
    Send(RequestView),
    Alert(Seq<char>),
    Confirm { question: Question, text: Seq<char> },
}

impl View for Action {
    type V = ActionView;

    open spec fn view(&self) -> ActionView {
        match self {
            Action::Persist => ActionView::Persist,
            Action::Connect { url } => ActionView::Connect { url: url@ },
            Action::Disconnect => ActionView::Disconnect,
            Action::Send(request) => ActionView::Send(request@),
            Action::Alert(text) => ActionView::Alert(text@),
            Action::Confirm { question, text } => ActionView::Confirm {
                question: *question,
                text: text@,
            },
        }
    }
}

/// What a list of actions says, in order.
pub open spec fn action_views(actions: Seq<Action>) -> Seq<ActionView> {
    Seq::new(actions.len(), |i: int| actions[i]@)
}

/// What handling one event gave.
#[derive(Debug, PartialEq, Eq)]
pub struct Outcome {
    /// Whether what is shown to the user has to be drawn again.
    pub should_render: bool,
    /// What has to be done, in this order.
    pub actions: Vec<Action>,
}

/// The session: the stored state, what is typed into the field for a new
/// symbol, and where the connection stands.
pub struct Model {
    pub symbol_to_add: Symbol,
    pub state: State,
    pub connection: Connection,
}

/// The mathematical content of a [`Model`].
pub struct ModelView {
    pub symbol_to_add: Seq<char>,
    pub state: StateView,
    pub connection: Connection,
}

impl View for Model {
    type V = ModelView;

    open spec fn view(&self) -> ModelView {
        ModelView {
            symbol_to_add: self.symbol_to_add@,
            state: self.state@,
            connection: self.connection,
        }
    }
}

/// A session after an event, with what the event calls for.
pub struct Step {
    pub model: ModelView,
    pub should_render: bool,
    pub actions: Seq<ActionView>,
}

/// The address of the feed for a credential.
pub open spec fn feed_url(api_key: Seq<char>) -> Seq<char> {
    FEED_URL@ + api_key
}

/// The question whether `symbol` may be removed.
pub open spec fn untrack_prompt(symbol: Seq<char>) -> Seq<char> {
    UNTRACK_PROMPT@ + symbol + UNTRACK_PROMPT_END@
}

/// One subscription for each entry of `symbols`, in their order.
pub open spec fn subscriptions(symbols: Seq<Seq<char>>) -> Seq<ActionView> {
    Seq::new(
        symbols.len(),
        |i: int| ActionView::Send(RequestView::Subscribe { symbol: symbols[i] }),
    )
}

impl ModelView {
    /// Whether the event can be handled in this session. Only the removal
    /// of a tracked entry asks for something: that the position exists.
    pub open spec fn admits(self, msg: MsgView) -> bool {
        match msg {
            MsgView::UnTrackSymbolAtIdx(idx) => idx < self.state.watched.len(),
            _ => true,
        }
    }

    /// Nothing changes and nothing is due.
    pub open spec fn idle(self, should_render: bool) -> Step {
        Step { model: self, should_render, actions: Seq::empty() }
    }

    /// A connection attempt: whatever socket is held is let go, and a new
    /// one is opened with the stored credential.
    pub open spec fn connect(self) -> Step {
        Step {
            model: ModelView { connection: Connection::Connecting, ..self },
            should_render: true,
            actions: seq![
                ActionView::Disconnect,
                ActionView::Connect { url: feed_url(self.state.api_key) },
            ],
        }
    }

    /// Tracking what was typed. Nothing happens while nothing is typed.
    /// Otherwise the symbol becomes the newest entry, the field is cleared,
    /// and an open connection is told at once.
    pub open spec fn track(self) -> Step {
        if self.symbol_to_add.len() == 0 {
            self.idle(false)
        } else {
            let subscribe = ActionView::Send(
                RequestView::Subscribe { symbol: self.symbol_to_add },
            );
            Step {
                model: ModelView {
                    symbol_to_add: Seq::empty(),
                    state: self.state.with_symbol(self.symbol_to_add),
                    ..self
                },
                should_render: true,
                actions: if self.connection == Connection::Connected {
                    seq![subscribe, ActionView::Persist]
                } else {
                    seq![ActionView::Persist]
                },
            }
        }
    }

    /// Removing the entry at `idx`. An open connection is told if that was
    /// the last entry for its symbol.
    pub open spec fn untrack(self, idx: int) -> Step {
        let unsubscribe = ActionView::Send(
            RequestView::Unsubscribe { symbol: self.state.watched[idx] },
        );
        Step {
            model: ModelView { state: self.state.without_entry(idx), ..self },
            should_render: true,
            actions: if self.state.is_last_occurrence(idx) && self.connection
                == Connection::Connected {
                seq![unsubscribe, ActionView::Persist]
            } else {
                seq![ActionView::Persist]
            },
        }
    }

    /// A decoded frame. A rejected symbol is blamed on the most recently
    /// added entry, and the user is asked whether it may go; other errors
    /// call for nothing. A heartbeat calls for nothing. Trades are recorded
    /// in the order in which the frame lists them.
    pub open spec fn receive(self, message: WsMessageView) -> Step {
        match message {
            WsMessageView::Error { message } => {
                if message == INVALID_SYMBOL@ && self.state.watched.len() > 0 {
                    Step {
                        model: self,
                        should_render: true,
                        actions: seq![
                            ActionView::Confirm {
                                question: Question::UntrackLastAdded,
                                text: untrack_prompt(self.state.watched.last()),
                            },
                        ],
                    }
                } else {
                    self.idle(true)
                }
            },
            WsMessageView::Ping => self.idle(false),
            WsMessageView::Trade { data } => Step {
                model: ModelView {
                    state: StateView {
                        history: recorded_all(self.state.history, data),
                        ..self.state
                    },
                    ..self
                },
                should_render: true,
                actions: seq![ActionView::Persist],
            },
        }
    }

    /// The socket is open: every tracked entry is subscribed, duplicates
    /// included, in the order of the entries. If no socket was asked for,
    /// the user is told so.
    pub open spec fn opened(self) -> Step {
        if self.connection == Connection::Disconnected {
            Step {
                model: self,
                should_render: true,
                actions: seq![ActionView::Alert(NO_SOCKET_ALERT@)],
            }
        } else {
            Step {
                model: ModelView { connection: Connection::Connected, ..self },
                should_render: true,
                actions: subscriptions(self.state.watched),
            }
        }
    }

    /// An answer of the user.
    pub open spec fn answered(self, question: Question, yes: bool) -> Step {
        match question {
            Question::UntrackLastAdded => {
                if yes {
                    Step {
                        model: ModelView { state: self.state.without_last_added(), ..self },
                        should_render: true,
                        actions: seq![ActionView::Persist],
                    }
                } else {
                    self.idle(true)
                }
            },
            Question::Reconnect => {
                if yes {
                    self.connect()
                } else {
                    Step {
                        model: ModelView { connection: Connection::Disconnected, ..self },
                        should_render: true,
                        actions: seq![ActionView::Disconnect],
                    }
                }
            },
        }
    }

    /// The session after `msg`, and what `msg` calls for.
    pub open spec fn step(self, msg: MsgView) -> Step {
        match msg {
            MsgView::ApiKeyUpdate(key) => Step {
                model: ModelView { state: StateView { api_key: key, ..self.state }, ..self },
                should_render: true,
                actions: seq![ActionView::Persist],
            },
            MsgView::UpdateSymbolToTrack(symbol) => Step {
                model: ModelView { symbol_to_add: symbol, ..self },
                should_render: true,
                actions: Seq::empty(),
            },
            MsgView::TrackSymbol => self.track(),
            MsgView::ApiKeyConnect => self.connect(),
            MsgView::ApiKeyDisconnect => Step {
                model: ModelView { connection: Connection::Disconnected, ..self },
                should_render: true,
                actions: seq![ActionView::Disconnect],
            },
            MsgView::UnTrackSymbolAtIdx(idx) => self.untrack(idx as int),
            MsgView::WsIncoming(Ok(message)) => self.receive(message),
            MsgView::WsIncoming(Err(_)) => self.idle(false),
            MsgView::WsOpened => self.opened(),
            MsgView::WsDead => Step {
                model: ModelView { connection: Connection::Disconnected, ..self },
                should_render: true,
                actions: seq![
                    ActionView::Confirm {
                        question: Question::Reconnect,
                        text: RECONNECT_PROMPT@,
                    },
                ],
            },
            MsgView::Nope => self.idle(true),
            MsgView::WsRefused(reason) => Step {
                model: ModelView { connection: Connection::Disconnected, ..self },
                should_render: false,
                actions: seq![ActionView::Alert(reason)],
            },
            MsgView::Answered(question, yes) => self.answered(question, yes),
        }
    }
}

/// The address of the feed for `api_key`.
fn feed_address(api_key: &ApiKey) -> (url: String)
    ensures
        url@ == feed_url(api_key@),
{
    let mut url = FEED_URL.to_owned();
    url.append(api_key.0.as_str());
    url
}

/// The question whether `symbol` may be removed.
fn untrack_question(symbol: &Symbol) -> (text: String)
    ensures
        text@ == untrack_prompt(symbol@),
{
    let mut text = UNTRACK_PROMPT.to_owned();
    text.append(symbol.0.as_str());
    text.append(UNTRACK_PROMPT_END);
    text
}

/// One subscription for each entry of `watched`, in their order.
fn subscribe_all(watched: &Vec<Symbol>) -> (actions: Vec<Action>)
    ensures
        action_views(actions@) == subscriptions(symbol_texts(watched@)),
{
    let mut actions: Vec<Action> = Vec::new();
    let mut i: usize = 0;
    while i < watched.len()
        invariant
            i <= watched.len(),
            actions.len() == i,
            forall|j: int|
                0 <= j < i ==> (#[trigger] actions[j])@ == ActionView::Send(
                    RequestView::Subscribe { symbol: watched[j]@ },
                ),
        decreases watched.len() - i,
    {
        actions.push(Action::Send(Request::Subscribe { symbol: watched[i].clone() }));
        i += 1;
    }
    assert(action_views(actions@) =~= subscriptions(symbol_texts(watched@)));
    actions
}

/// Records the trades of one frame, the first of them first.
fn record_batch(state: &mut State, data: Vec<TickerInfo>)
    ensures
        final(state)@ == (StateView {
            history: recorded_all(old(state)@.history, tick_views(data@)),
            ..old(state)@
        }),
{
    let ghost ticks = tick_views(data@);
    for tick in batch: data
        invariant
            ticks.len() == batch.seq().len(),
            forall|j: int| 0 <= j < ticks.len() ==> ticks[j] == (#[trigger] batch.seq()[j])@,
            state@ == (StateView {
                history: recorded_all(old(state)@.history, ticks.take(batch.index() as int)),
                ..old(state)@
            }),
    {
        proof {
            let upto = ticks.take(batch.index() + 1);
            assert(upto.drop_last() =~= ticks.take(batch.index() as int));
            assert(upto.last() == tick@);
        }
        state.add_history(tick);
    }
    assert(ticks.take(ticks.len() as int) =~= ticks);
}

/// How the card of a tracked symbol is framed.
#[derive(Clone, Copy, Debug, PartialEq, Eq, Structural)]
pub enum CardBorder {
    /// No socket is held: what is shown may be out of date.
    Warning,
    /// The latest price is above the one before it.
    Success,
    /// The latest price is below the one before it.
    Danger,
    /// The price is level, or there are not yet two trades.
    Primary,
}

/// The frame for a symbol whose trades show `health`.
pub open spec fn border_of(connection: Connection, health: TickerHealth) -> CardBorder {
    if connection == Connection::Disconnected {
        CardBorder::Warning
    } else {
        match health {
            TickerHealth::Good => CardBorder::Success,
            TickerHealth::Bad => CardBorder::Danger,
            TickerHealth::Normal => CardBorder::Primary,
        }
    }
}

impl Model {
    /// The session at startup: the restored state if there is one, the
    /// state of a first run otherwise. Nothing is typed, and no connection
    /// is open or asked for.
    pub fn create(restored: Option<State>) -> (model: Model)
        ensures
            model@ == (ModelView {
                symbol_to_add: Seq::empty(),
                state: match restored {
                    Some(state) => state@,
                    None => StateView {
                        api_key: Seq::empty(),
                        watched: Seq::empty(),
                        history: Map::empty(),
                    },
                },
                connection: Connection::Disconnected,
            }),
    {
        let state = match restored {
            Some(state) => state,
            None => State::new(),
        };
        Model { symbol_to_add: Symbol::empty(), state, connection: Connection::Disconnected }
    }

    /// Starts a connection attempt with the stored credential. The socket
    /// that is held, if any, is let go first.
    pub fn connect_to_api(&mut self) -> (outcome: Outcome)
        ensures
            final(self)@ == old(self)@.connect().model,
            outcome.should_render == old(self)@.connect().should_render,
            action_views(outcome.actions@) == old(self)@.connect().actions,
    {
        let url = feed_address(&self.state.api_key);
        self.connection = Connection::Connecting;
        let mut actions: Vec<Action> = Vec::new();
        actions.push(Action::Disconnect);
        actions.push(Action::Connect { url });
        assert(action_views(actions@) =~= old(self)@.connect().actions);
        Outcome { should_render: true, actions }
    }

    /// Handles one event: changes the session and returns what has to be
    /// done, exactly as [`ModelView::step`] says.
    pub fn update(&mut self, msg: Msg) -> (outcome: Outcome)
        requires
            old(self)@.admits(msg@),
        ensures
            final(self)@ == old(self)@.step(msg@).model,
            outcome.should_render == old(self)@.step(msg@).should_render,
            action_views(outcome.actions@) == old(self)@.step(msg@).actions,
    {
        let ghost before = self@;
        let ghost step = before.step(msg@);
        let mut actions: Vec<Action> = Vec::new();
        let mut should_render = true;
        match msg {
            Msg::ApiKeyUpdate(key) => {
                self.state.api_key = key;
                actions.push(Action::Persist);
            },
            Msg::ApiKeyConnect => {
                return self.connect_to_api();
            },
            Msg::ApiKeyDisconnect => {
                self.connection = Connection::Disconnected;
                actions.push(Action::Disconnect);
            },
            Msg::UpdateSymbolToTrack(symbol) => {
                self.symbol_to_add = symbol;
            },
            Msg::TrackSymbol => {
                if self.symbol_to_add.is_empty() {
                    should_render = false;
                } else {
                    let symbol_to_add = self.symbol_to_add.clone();
                    self.state.add_symbol(symbol_to_add.clone());
                    self.symbol_to_add = Symbol::empty();
                    if self.connection == Connection::Connected {
                        actions.push(Action::Send(Request::Subscribe { symbol: symbol_to_add }));
                    }
                    actions.push(Action::Persist);
                }
            },
            Msg::UnTrackSymbolAtIdx(idx) => {
                let result = self.state.untrack_symbol(idx);
                if result.is_last && self.connection == Connection::Connected {
                    actions.push(Action::Send(Request::Unsubscribe { symbol: result.symbol }));
                }
                actions.push(Action::Persist);
            },
            Msg::WsIncoming(Ok(WsMessage::Error { message })) => {
                if message == INVALID_SYMBOL.to_owned() {
                    if let Some(last_added) = self.state.last_added() {
                        let text = untrack_question(last_added);
                        let question = Question::UntrackLastAdded;
                        actions.push(Action::Confirm { question, text });
                    }
                }
            },
            Msg::WsIncoming(Ok(WsMessage::Trade { data })) => {
                record_batch(&mut self.state, data);
                actions.push(Action::Persist);
            },
            Msg::WsIncoming(Ok(WsMessage::Ping)) => {
                should_render = false;
            },
            Msg::WsIncoming(Err(_)) => {
                should_render = false;
            },
            Msg::WsOpened => {
                if self.connection == Connection::Disconnected {
                    actions.push(Action::Alert(NO_SOCKET_ALERT.to_owned()));
                } else {
                    self.connection = Connection::Connected;
                    actions = subscribe_all(&self.state.watched);
                }
            },
            Msg::WsDead => {
                self.connection = Connection::Disconnected;
                actions.push(
                    Action::Confirm {
                        question: Question::Reconnect,
                        text: RECONNECT_PROMPT.to_owned(),
                    },
                );
            },
            Msg::Nope => {},
            Msg::WsRefused(reason) => {
                self.connection = Connection::Disconnected;
                actions.push(Action::Alert(reason));
                should_render = false;
            },
            Msg::Answered(Question::UntrackLastAdded, yes) => {
                if yes {
                    self.state.remove_last_added();
                    actions.push(Action::Persist);
                }
            },
            Msg::Answered(Question::Reconnect, yes) => {
                if yes {
                    return self.connect_to_api();
                } else {
                    self.connection = Connection::Disconnected;
                    actions.push(Action::Disconnect);
                }
            },
        }
        assert(action_views(actions@) =~= step.actions);
        Outcome { should_render, actions }
    }

    /// Whether a socket is held, open or not yet open.
    pub fn holds_socket(&self) -> (held: bool)
        ensures
            held == (self.connection != Connection::Disconnected),
    {
        match self.connection {
            Connection::Disconnected => false,
            Connection::Connecting => true,
            Connection::Connected => true,
        }
    }

    /// The frame of the card that shows `symbol`.
    pub fn card_border(&self, symbol: &Symbol) -> (border: CardBorder)
        ensures
            border == border_of(
                self.connection,
                health_of(run_of(self@.state.history, symbol@)),
            ),
    {
        let health = ticker_health(self.state.history.get(symbol));
        if self.connection == Connection::Disconnected {
            CardBorder::Warning
        } else {
            match health {
                TickerHealth::Good => CardBorder::Success,
                TickerHealth::Bad => CardBorder::Danger,
                TickerHealth::Normal => CardBorder::Primary,
            }
        }
    }
}

/// Whenever an event changes the stored state, storing it is due, as the
/// last of the actions.
pub proof fn lemma_changes_are_stored(model: ModelView, msg: MsgView)
    requires
        model.admits(msg),
    ensures
        model.step(msg).model.state != model.state ==> model.step(msg).actions.len() > 0
            && model.step(msg).actions.last() == ActionView::Persist,
{
}

/// A session without a connection stays without one, opens no socket and
/// sends nothing, until the user asks to connect or agrees to reconnect. In
/// particular a session that was just created does so.
pub proof fn lemma_offline_until_asked(model: ModelView, msg: MsgView)
    requires
        model.admits(msg),
        model.connection == Connection::Disconnected,
        msg != MsgView::ApiKeyConnect,
        msg != MsgView::Answered(Question::Reconnect, true),
    ensures
        model.step(msg).model.connection == Connection::Disconnected,
        forall|i: int|
            0 <= i < model.step(msg).actions.len() ==> !((#[trigger] model.step(msg).actions[i])
                is Send) && !(model.step(msg).actions[i] is Connect),
{
}

/// Requests are due only where the connection is open afterwards.
pub proof fn lemma_sends_need_open_connection(model: ModelView, msg: MsgView)
    requires
        model.admits(msg),
    ensures
        forall|i: int|
            0 <= i < model.step(msg).actions.len() && (#[trigger] model.step(msg).actions[i])
                is Send ==> model.step(msg).model.connection == Connection::Connected,
{
}

/// No event lets the trades of a symbol grow beyond the limit: a well-kept
/// history is well kept after every event.
pub proof fn lemma_history_stays_well_kept(model: ModelView, msg: MsgView)
    requires
        model.admits(msg),
        well_kept(model.state.history),
    ensures
        well_kept(model.step(msg).model.state.history),
{
    match msg {
        MsgView::WsIncoming(Ok(WsMessageView::Trade { data })) => {
            lemma_recorded_all_well_kept(model.state.history, data);
        },
        _ => {},
    }
}

} // verus!
