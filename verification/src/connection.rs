//! The client: who it is, who subscribed to what, and what each turn of
//! its receive loop comes to.
//!
//! The connection reads and writes nothing itself. It is told what was
//! read and answers with what is to be done.

use crate::dispatch::{
    dispatch_plan, handlers_last, invocations, lemma_handlers_last, lemma_handlers_last_behind,
    pong_reply, reaction, views, Action, ActionView, Notice,
};
use crate::event::{BanchoEvent, EventType, EventView};
use crate::parser::{
    completed, is_known_action, kind_of, parse, parse_line, Parsed, ParsedView, Presence,
    PresenceView,
};
use crate::text::chars_of;
use vstd::prelude::*;

verus! {

/// `name` with an underscore for each space.
pub open spec fn underscored(name: Seq<char>) -> Seq<char> {
    name.map_values(
        |c: char|
            if c == ' ' {
                '_'
            } else {
                c
            },
    )
}

/// The two lines that authenticate the client.
pub open spec fn login_text(username: Seq<char>, irc_token: Seq<char>) -> Seq<char> {
    "PASS "@ + irc_token + "\r\nNICK "@ + underscored(username) + "\r\n"@
}

/// Writes `name` with an underscore for each space.
pub fn underscore(name: &str) -> (out: String)
    ensures
        out@ == underscored(name@),
{
    let v = chars_of(name);
    let mut out = String::new();
    let mut i: usize = 0;
    while i < v.len()
        invariant
            v@ == name@,
            0 <= i <= v.len(),
            out@ == underscored(name@.take(i as int)),
        decreases v.len() - i,
    {
        let ghost done = out@;
        if v[i] == ' ' {
            out.append("_");
            proof {
                reveal_strlit("_");
                assert("_"@ =~= seq!['_']);
            }
        } else {
            out.append(name.substring_char(i, i + 1));
            proof {
                assert(name@.subrange(i as int, i + 1) =~= seq![name@[i as int]]);
            }
        }
        proof {
            let c = name@[i as int];
            assert(out@ =~= done.push(if c == ' ' { '_' } else { c }));
            assert(name@.take(i + 1) =~= name@.take(i as int).push(c));
            assert(out@ =~= underscored(name@.take(i + 1)));
        }
        i += 1;
    }
    proof {
        assert(name@.take(v.len() as int) =~= name@);
    }
    out
}

/// A handler and the kind of event it is called for.
struct Subscription<H> {
    kind: EventType,
    handler: H,
}

/// The model of a connection: the kinds subscribed to and the handlers,
/// both in the order of registration, so that the handler with number
/// `i` is `handlers[i]` and is called for events of kind
/// `subscriptions[i]`.
pub struct ConnectionView<H> {
    pub username: Seq<char>,
    pub subscriptions: Seq<EventType>,
    pub handlers: Seq<H>,
}

/// A client of the chat server, known there as `username`, and the
/// handlers subscribed to its events. A subscription stays for as long as
/// the client lives.
pub struct Connection<H> {
    username: String,
    subscriptions: Vec<Subscription<H>>,
}

impl<H> View for Connection<H> {
    type V = ConnectionView<H>;

    closed spec fn view(&self) -> ConnectionView<H> {
        ConnectionView {
            username: self.username@,
            subscriptions: self.subscriptions@.map_values(|s: Subscription<H>| s.kind),
            handlers: self.subscriptions@.map_values(|s: Subscription<H>| s.handler),
        }
    }
}

/// The model of a turn.
pub enum TurnView {
    Stop,
    Skip,
    Dispatch(EventView, Seq<ActionView>),
    Summarise(PresenceView),
}

/// What one turn of the receive loop comes to.
#[derive(Debug)]
pub enum Turn {
    /// The stream is closed or failed: the session is over.
    Stop,
    /// The line is empty: nothing is dispatched for it.
    Skip,
    /// The event of this line, and what is to be done for it, in order.
    Dispatch(BanchoEvent, Vec<Action>),
    /// A presence message: get the summary of its resource, then `resume`.
    Summarise(Presence),
}

impl View for Turn {
    type V = TurnView;

    open spec fn view(&self) -> TurnView {
        match self {
            Turn::Stop => TurnView::Stop,
            Turn::Skip => TurnView::Skip,
            Turn::Dispatch(event, plan) => TurnView::Dispatch(event@, views(plan@)),
            Turn::Summarise(presence) => TurnView::Summarise(presence@),
        }
    }
}

/// What the parser has to say about a line, for the log: a chat message
/// that is no presence message is noted with its text, a presence message
/// with an unexpected action with that action.
pub open spec fn parse_notice(parsed: ParsedView) -> Seq<ActionView> {
    match parsed {
        ParsedView::Event(event) => if event.event_type == EventType::PrivMsg {
            seq![ActionView::Log(Notice::UnknownMessage, event.message)]
        } else {
            Seq::empty()
        },
        ParsedView::Presence(presence) => if is_known_action(presence.action) {
            Seq::empty()
        } else {
            seq![ActionView::Log(Notice::UnknownAction, presence.action)]
        },
    }
}

/// An empty line: one that holds nothing, or nothing but the end of
/// line, be that a line feed or a carriage return and a line feed.
pub open spec fn is_empty_line(line: Seq<char>) -> bool {
    ||| line.len() == 0
    ||| line == seq!['\n']
    ||| line == seq!['\r', '\n']
}

/// Tells whether a line is empty.
pub fn empty_line(line: &str) -> (empty: bool)
    ensures
        empty == is_empty_line(line@),
{
    let v = chars_of(line);
    let n: usize = v.len();
    let empty = n == 0 || (n == 1 && v[0] == '\n') || (n == 2 && v[0] == '\r' && v[1] == '\n');
    proof {
        if empty {
            if n == 1 {
                assert(line@ =~= seq!['\n']);
            } else if n == 2 {
                assert(line@ =~= seq!['\r', '\n']);
            }
        } else {
            assert(seq!['\n'].len() == 1 && seq!['\n'][0] == '\n');
            assert(seq!['\r', '\n'].len() == 2 && seq!['\r', '\n'][0] == '\r' && seq![
                '\r',
                '\n',
            ][1] == '\n');
        }
    }
    empty
}

/// The turn that follows a read: `None` stands for a stream that is closed
/// or failed, an empty line is passed over, any other line is parsed and
/// its event dispatched, behind what the parser has to say about it.
pub open spec fn turn(
    username: Seq<char>,
    subscriptions: Seq<EventType>,
    read: Option<Seq<char>>,
) -> TurnView {
    match read {
        None => TurnView::Stop,
        Some(line) => if is_empty_line(line) {
            TurnView::Skip
        } else {
            match parse(line, username) {
                ParsedView::Event(event) => TurnView::Dispatch(
                    event,
                    parse_notice(ParsedView::Event(event)) + dispatch_plan(subscriptions, event),
                ),
                ParsedView::Presence(presence) => TurnView::Summarise(presence),
            }
        },
    }
}

/// The turn that ends a presence message, once the summary of its
/// resource is known: the completed event is dispatched.
pub open spec fn resumed(
    subscriptions: Seq<EventType>,
    presence: PresenceView,
    summary: Seq<char>,
) -> TurnView {
    TurnView::Dispatch(
        completed(presence, summary),
        parse_notice(ParsedView::Presence(presence)) + dispatch_plan(
            subscriptions,
            completed(presence, summary),
        ),
    )
}

/// The calls behind a list of outcomes: one for each, of the handler whose
/// number it stands under.
pub open spec fn called<R>(outcomes: Seq<(usize, R)>) -> Seq<ActionView> {
    outcomes.map_values(|outcome: (usize, R)| ActionView::Invoke(outcome.0 as int))
}

impl<H> Connection<H> {
    /// Each subscription has its handler: the two lists of the model are
    /// of one length.
    pub proof fn lemma_one_handler_each(&self)
        ensures
            self@.subscriptions.len() == self@.handlers.len(),
    {
    }

    /// A client known as `username`, with no subscription yet, and the
    /// write that authenticates it with `irc_token`.
    pub fn new(username: String, irc_token: String) -> (made: (Connection<H>, Action))
        ensures
            made.0@.username == username@,
            made.0@.subscriptions == Seq::<EventType>::empty(),
            made.0@.handlers == Seq::<H>::empty(),
            made.1@ == ActionView::Write(login_text(username@, irc_token@)),
    {
        let mut login = "PASS ".to_owned();
        login.append(irc_token.as_str());
        login.append("\r\nNICK ");
        login.append(underscore(username.as_str()).as_str());
        login.append("\r\n");
        let connection = Connection { username, subscriptions: Vec::new() };
        proof {
            assert(connection@.subscriptions =~= Seq::<EventType>::empty());
            assert(connection@.handlers =~= Seq::<H>::empty());
        }
        (connection, Action::Write(login))
    }

    /// One turn of the receive loop, for what was just read: `None` where
    /// the stream is closed or failed, else the line, with or without the
    /// end of line it came with.
    pub fn listen(&self, read: Option<&str>) -> (next: Turn)
        ensures
            next@ == turn(
                self@.username,
                self@.subscriptions,
                match read {
                    Some(line) => Some(line@),
                    None => None,
                },
            ),
    {
        match read {
            None => Turn::Stop,
            Some(line) => {
                if empty_line(line) {
                    Turn::Skip
                } else {
                    match self.parse_line(line.to_owned()) {
                        Parsed::Event(event) => {
                            let mut plan: Vec<Action> = Vec::new();
                            if event.event_type == EventType::PrivMsg {
                                plan.push(
                                    Action::Log(Notice::UnknownMessage, event.message.clone()),
                                );
                            }
                            proof {
                                assert(views(plan@) =~= parse_notice(ParsedView::Event(event@)));
                            }
                            self.plan_into(&mut plan, &event);
                            Turn::Dispatch(event, plan)
                        },
                        Parsed::Presence(presence) => Turn::Summarise(presence),
                    }
                }
            },
        }
    }

    /// The turn that ends a presence message, once the summary of its
    /// resource is known.
    pub fn resume(&self, presence: Presence, summary: String) -> (next: Turn)
        ensures
            next@ == resumed(self@.subscriptions, presence@, summary@),
    {
        let mut plan: Vec<Action> = Vec::new();
        if !presence.known_action() {
            plan.push(Action::Log(Notice::UnknownAction, presence.action.clone()));
        }
        proof {
            assert(views(plan@) =~= parse_notice(ParsedView::Presence(presence@)));
        }
        let event = presence.complete(summary);
        self.plan_into(&mut plan, &event);
        Turn::Dispatch(event, plan)
    }

    /// Subscribes `handler` to the events of one kind, behind all that are
    /// subscribed already, and gives it its number.
    pub fn register_event(&mut self, event_type: EventType, handler: H) -> (id: usize)
        ensures
            id == old(self)@.subscriptions.len(),
            final(self)@.subscriptions == old(self)@.subscriptions.push(event_type),
            final(self)@.handlers == old(self)@.handlers.push(handler),
            final(self)@.username == old(self)@.username,
    {
        let id: usize = self.subscriptions.len();
        self.subscriptions.push(Subscription { kind: event_type, handler });
        proof {
            assert(final(self)@.subscriptions =~= old(self)@.subscriptions.push(event_type));
            assert(final(self)@.handlers =~= old(self)@.handlers.push(handler));
        }
        id
    }

    /// The handler registered under `id`, where there is one.
    pub fn handler(&self, id: usize) -> (found: Option<&H>)
        ensures
            id < self@.handlers.len() ==> found == Some(&self@.handlers[id as int]),
            id >= self@.handlers.len() ==> found is None,
    {
        if id < self.subscriptions.len() {
            Some(&self.subscriptions[id].handler)
        } else {
            None
        }
    }

    /// Adds to `plan` what is to be done for `event`.
    fn plan_into(&self, plan: &mut Vec<Action>, event: &BanchoEvent)
        ensures
            views(final(plan)@) == views(old(plan)@) + dispatch_plan(self@.subscriptions, event@),
    {
        let ghost start = views(plan@);
        let ghost kinds = self@.subscriptions;
        match event.event_type {
            EventType::Error => {
                plan.push(Action::Log(Notice::ProtocolError, event.message.clone()));
            },
            EventType::Ping => {
                plan.push(Action::Write(pong_reply(event.message.as_str())));
            },
            _ => {},
        }
        proof {
            assert(views(plan@) =~= start + reaction(event@));
            assert(kinds.take(0) =~= Seq::<EventType>::empty());
        }
        let mut i: usize = 0;
        while i < self.subscriptions.len()
            invariant
                0 <= i <= self.subscriptions.len(),
                kinds == self@.subscriptions,
                kinds.len() == self.subscriptions.len(),
                views(plan@) == start + reaction(event@) + invocations(
                    kinds.take(i as int),
                    event.event_type,
                ),
            decreases self.subscriptions.len() - i,
        {
            proof {
                assert(kinds.take(i + 1).drop_last() =~= kinds.take(i as int));
                assert(kinds.take(i + 1).last() == self.subscriptions@[i as int].kind);
            }
            let ghost so_far = views(plan@);
            if self.subscriptions[i].kind == event.event_type {
                plan.push(Action::Invoke(i));
                proof {
                    assert(views(plan@) =~= so_far.push(ActionView::Invoke(i as int)));
                }
            }
            i += 1;
            proof {
                assert(views(plan@) =~= start + reaction(event@) + invocations(
                    kinds.take(i as int),
                    event.event_type,
                ));
            }
        }
        proof {
            assert(kinds.take(i as int) =~= kinds);
            assert(views(plan@) =~= start + dispatch_plan(kinds, event@));
        }
    }

    /// What is to be done for `event`, in order: the client's own reaction
    /// first, then one call for each handler subscribed to its kind. The
    /// calls are the caller's to make: one by one with `handler`, or all
    /// at once with `run_handlers`, when the steps before them are done.
    pub fn emit_event(&self, event: &BanchoEvent) -> (plan: Vec<Action>)
        ensures
            views(plan@) == dispatch_plan(self@.subscriptions, event@),
    {
        let mut plan: Vec<Action> = Vec::new();
        self.plan_into(&mut plan, event);
        proof {
            assert(views(plan@) =~= dispatch_plan(self@.subscriptions, event@));
        }
        plan
    }

    /// Calls every handler subscribed to the kind of `event`, in the order
    /// of registration, and gives what each returned under its number. A
    /// handler is called whatever the handlers before it returned.
    pub fn run_handlers<R>(&self, event: &BanchoEvent) -> (outcomes: Vec<(usize, R)>) where
        H: Fn(&BanchoEvent) -> R,

        requires
            forall|i: int|
                0 <= i < self@.handlers.len() && self@.subscriptions[i] == event.event_type
                    ==> call_requires(#[trigger] self@.handlers[i], (event,)),
        ensures
            called(outcomes@) == invocations(self@.subscriptions, event.event_type),
            forall|k: int|
                0 <= k < outcomes.len() ==> {
                    let outcome = #[trigger] outcomes[k];
                    &&& outcome.0 < self@.handlers.len()
                    &&& call_ensures(self@.handlers[outcome.0 as int], (event,), outcome.1)
                },
    {
        let ghost kinds = self@.subscriptions;
        let mut outcomes: Vec<(usize, R)> = Vec::new();
        let mut i: usize = 0;
        proof {
            assert(kinds.take(0) =~= Seq::<EventType>::empty());
            assert(called(outcomes@) =~= Seq::<ActionView>::empty());
        }
        while i < self.subscriptions.len()
            invariant
                0 <= i <= self.subscriptions.len(),
                kinds == self@.subscriptions,
                kinds.len() == self.subscriptions.len(),
                called(outcomes@) == invocations(kinds.take(i as int), event.event_type),
                forall|j: int|
                    0 <= j < self@.handlers.len() && self@.subscriptions[j] == event.event_type
                        ==> call_requires(#[trigger] self@.handlers[j], (event,)),
                forall|k: int|
                    0 <= k < outcomes.len() ==> {
                        let outcome = #[trigger] outcomes[k];
                        &&& outcome.0 < self@.handlers.len()
                        &&& call_ensures(self@.handlers[outcome.0 as int], (event,), outcome.1)
                    },
            decreases self.subscriptions.len() - i,
        {
            proof {
                assert(kinds.take(i + 1).drop_last() =~= kinds.take(i as int));
                assert(kinds.take(i + 1).last() == self.subscriptions@[i as int].kind);
            }
            let ghost so_far = called(outcomes@);
            if self.subscriptions[i].kind == event.event_type {
                proof {
                    assert(self@.handlers[i as int] == self.subscriptions@[i as int].handler);
                    assert(self@.subscriptions[i as int] == event.event_type);
                }
                let outcome = (self.subscriptions[i].handler)(event);
                outcomes.push((i, outcome));
                proof {
                    assert(called(outcomes@) =~= so_far.push(ActionView::Invoke(i as int)));
                }
            }
            i += 1;
        }
        proof {
            assert(kinds.take(i as int) =~= kinds);
        }
        outcomes
    }

    /// Parses one raw line as this client reads it.
    pub fn parse_line(&self, line: String) -> (parsed: Parsed)
        ensures
            parsed@ == parse(line@, self@.username),
    {
        parse_line(line.as_str(), self.username.as_str())
    }

    /// The write that sends `message` to the server as it is.
    pub fn send_bancho(&self, message: String) -> (write: Action)
        ensures
            write@ == ActionView::Write(message@),
    {
        Action::Write(message)
    }
}

/// The kind of the event that a turn dispatches: at once, or, for a
/// presence message, when the turn is resumed.
pub open spec fn dispatched_kind(next: TurnView) -> Option<EventType> {
    match next {
        TurnView::Dispatch(event, _) => Some(event.event_type),
        TurnView::Summarise(_) => Some(EventType::PrivMsg),
        TurnView::Stop => None,
        TurnView::Skip => None,
    }
}

/// The kinds of the events dispatched while `lines` are read one after
/// the other, in the order of their dispatch.
pub open spec fn session_kinds(
    username: Seq<char>,
    subscriptions: Seq<EventType>,
    lines: Seq<Seq<char>>,
) -> Seq<EventType>
    decreases lines.len(),
{
    if lines.len() == 0 {
        Seq::empty()
    } else {
        let earlier = session_kinds(username, subscriptions, lines.drop_last());
        match dispatched_kind(turn(username, subscriptions, Some(lines.last()))) {
            Some(kind) => earlier.push(kind),
            None => earlier,
        }
    }
}

/// The lines of `lines` that are not empty, in their order.
pub open spec fn lines_to_dispatch(lines: Seq<Seq<char>>) -> Seq<Seq<char>> {
    lines.filter(|line: Seq<char>| !is_empty_line(line))
}

/// Order of dispatch. Every line that is not empty gives one event, none
/// dropped and none out of place: the kinds dispatched are the kinds that
/// those lines parse to, line by line. Where no line is empty, these are
/// all the lines.
pub proof fn lemma_dispatch_in_order(
    username: Seq<char>,
    subscriptions: Seq<EventType>,
    lines: Seq<Seq<char>>,
)
    ensures
        session_kinds(username, subscriptions, lines) == lines_to_dispatch(lines).map_values(
            |line: Seq<char>| kind_of(parse(line, username)),
        ),
        (forall|i: int| 0 <= i < lines.len() ==> !is_empty_line(#[trigger] lines[i]))
            ==> lines_to_dispatch(lines) == lines,
    decreases lines.len(),
{
    let wanted = |line: Seq<char>| !is_empty_line(line);
    let kind = |line: Seq<char>| kind_of(parse(line, username));
    reveal(Seq::filter);
    if lines.len() == 0 {
        assert(lines.filter(wanted) =~= lines);
        assert(session_kinds(username, subscriptions, lines) =~= lines.filter(wanted).map_values(
            kind,
        ));
    } else {
        let earlier = lines.drop_last();
        lemma_dispatch_in_order(username, subscriptions, earlier);
        if is_empty_line(lines.last()) {
            assert(lines.filter(wanted) == earlier.filter(wanted));
        } else {
            assert(lines.filter(wanted) == earlier.filter(wanted).push(lines.last()));
            assert(session_kinds(username, subscriptions, lines) =~= lines.filter(
                wanted,
            ).map_values(kind));
        }
        if forall|i: int| 0 <= i < lines.len() ==> !is_empty_line(#[trigger] lines[i]) {
            assert forall|i: int| 0 <= i < earlier.len() implies !is_empty_line(
                #[trigger] earlier[i],
            ) by {
                assert(earlier[i] == lines[i]);
            }
            assert(lines.filter(wanted) =~= lines);
        }
    }
}

/// What is dispatched for lines read after others follows what was
/// dispatched for those, and changes nothing of it.
pub proof fn lemma_session_continues(
    username: Seq<char>,
    subscriptions: Seq<EventType>,
    earlier: Seq<Seq<char>>,
    later: Seq<Seq<char>>,
)
    ensures
        session_kinds(username, subscriptions, earlier + later) == session_kinds(
            username,
            subscriptions,
            earlier,
        ) + session_kinds(username, subscriptions, later),
    decreases later.len(),
{
    let before = session_kinds(username, subscriptions, earlier);
    if later.len() == 0 {
        assert(earlier + later =~= earlier);
        assert(before + session_kinds(username, subscriptions, later) =~= before);
    } else {
        lemma_session_continues(username, subscriptions, earlier, later.drop_last());
        assert((earlier + later).drop_last() =~= earlier + later.drop_last());
        assert((earlier + later).last() == later.last());
        let so_far = before + session_kinds(username, subscriptions, later.drop_last());
        match dispatched_kind(turn(username, subscriptions, Some(later.last()))) {
            Some(kind) => {
                assert(so_far.push(kind) =~= before + session_kinds(
                    username,
                    subscriptions,
                    later,
                ));
            },
            None => {},
        }
    }
}

/// An empty line among others. Nothing is dispatched for it, and what is
/// dispatched for the lines before and after it is what would be without
/// it.
pub proof fn lemma_empty_line_skipped(
    username: Seq<char>,
    subscriptions: Seq<EventType>,
    earlier: Seq<Seq<char>>,
    blank: Seq<char>,
    later: Seq<Seq<char>>,
)
    requires
        is_empty_line(blank),
    ensures
        turn(username, subscriptions, Some(blank)) == TurnView::Skip,
        session_kinds(username, subscriptions, earlier + seq![blank] + later) == session_kinds(
            username,
            subscriptions,
            earlier + later,
        ),
{
    let one = seq![blank];
    assert(one.drop_last() =~= Seq::<Seq<char>>::empty());
    assert(one.last() == blank);
    assert(session_kinds(username, subscriptions, one.drop_last()) =~= Seq::<EventType>::empty());
    assert(session_kinds(username, subscriptions, one) =~= Seq::<EventType>::empty());
    lemma_session_continues(username, subscriptions, earlier, one);
    lemma_session_continues(username, subscriptions, earlier + one, later);
    lemma_session_continues(username, subscriptions, earlier, later);
    assert(session_kinds(username, subscriptions, earlier) + Seq::<EventType>::empty()
        =~= session_kinds(username, subscriptions, earlier));
}

/// In the plan of a turn the calls of handlers stand last, whether the
/// turn follows a read or ends a presence message.
pub proof fn lemma_turn_handlers_last(
    username: Seq<char>,
    subscriptions: Seq<EventType>,
    read: Option<Seq<char>>,
    presence: PresenceView,
    summary: Seq<char>,
)
    ensures
        turn(username, subscriptions, read) matches TurnView::Dispatch(_, plan) ==> handlers_last(
            plan,
        ),
        resumed(subscriptions, presence, summary) matches TurnView::Dispatch(_, plan)
            && handlers_last(plan),
{
    if let TurnView::Dispatch(event, plan) = turn(username, subscriptions, read) {
        lemma_handlers_last(subscriptions, event);
        lemma_handlers_last_behind(
            parse_notice(ParsedView::Event(event)),
            dispatch_plan(subscriptions, event),
        );
    }
    let event = completed(presence, summary);
    lemma_handlers_last(subscriptions, event);
    lemma_handlers_last_behind(
        parse_notice(ParsedView::Presence(presence)),
        dispatch_plan(subscriptions, event),
    );
}

/// Keep-alive within a turn. A line that opens with `PING` is answered in
/// the turn in which it was read: the plan of that turn opens with the
/// write of the line with `PONG` for `PING`, and all that follows are calls
/// of the handlers subscribed to keep-alive events.
pub proof fn lemma_keep_alive_turn(
    username: Seq<char>,
    subscriptions: Seq<EventType>,
    line: Seq<char>,
)
    requires
        "PING"@.is_prefix_of(line),
    ensures
        turn(username, subscriptions, Some(line)) matches TurnView::Dispatch(event, plan) && {
            &&& event.event_type == EventType::Ping
            &&& event.message == line
            &&& plan == seq![ActionView::Write("PONG"@ + line.skip(4))] + invocations(
                subscriptions,
                EventType::Ping,
            )
        },
{
    reveal_strlit("PING");
    let event = EventView {
        event_type: EventType::Ping,
        sender: Seq::empty(),
        receiver: Seq::empty(),
        message: line,
    };
    assert(parse_notice(ParsedView::Event(event)) + dispatch_plan(subscriptions, event) =~= seq![
        ActionView::Write("PONG"@ + line.skip(4)),
    ] + invocations(subscriptions, EventType::Ping));
}

} // verus!
