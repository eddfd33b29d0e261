//! From one raw line and the local identity to a typed event.
//!
//! `parse` is the model: a total function on character sequences.
//! `parse_line` computes it.

use crate::event::{BanchoEvent, EventType, EventView};
use crate::text::{after, before, chars_of, find_in, first_index, range_is, trim, trim_range};
use vstd::prelude::*;

verus! {

/// The marker that opens and closes a presence message.
pub const MARKER: char = '\x01';

/// What a presence message asks for: the summary of the resource at
/// `locator`, to become the message of a chat event from `sender`.
pub struct PresenceView {
    pub sender: Seq<char>,
    pub receiver: Seq<char>,
    pub action: Seq<char>,
    pub locator: Seq<char>,
}

/// A presence message whose event still lacks its summary.
#[derive(Debug)]
pub struct Presence {
    pub sender: String,
    pub receiver: String,
    pub action: String,
    pub locator: String,
}

impl View for Presence {
    type V = PresenceView;

    open spec fn view(&self) -> PresenceView {
        PresenceView {
            sender: self.sender@,
            receiver: self.receiver@,
            action: self.action@,
            locator: self.locator@,
        }
    }
}

/// The model of a parse result.
pub enum ParsedView {
    Event(EventView),
    Presence(PresenceView),
}

/// What one line parses to: an event, or a presence message that becomes
/// one once its summary is known.
#[derive(Debug)]
pub enum Parsed {
    Event(BanchoEvent),
    Presence(Presence),
}

impl View for Parsed {
    type V = ParsedView;

    open spec fn view(&self) -> ParsedView {
        match self {
            Parsed::Event(e) => ParsedView::Event(e@),
            Parsed::Presence(p) => ParsedView::Presence(p@),
        }
    }
}

/// The event kind that a command token stands for; `Error` for a token
/// outside the table.
pub open spec fn command_kind(token: Seq<char>) -> EventType {
    if token == "464"@ {
        EventType::AuthFailed
    } else if token == "001"@ {
        EventType::AuthSuccess
    } else if token == "375"@ {
        EventType::MotdStart
    } else if token == "372"@ {
        EventType::Motd
    } else if token == "376"@ {
        EventType::MotdEnd
    } else if token == "QUIT"@ {
        EventType::Quit
    } else if token == "PRIVMSG"@ {
        EventType::PrivMsg
    } else {
        EventType::Error
    }
}

/// The identity in a sender reference: one leading colon dropped, then
/// everything before the first `!`.
pub open spec fn sender_of(token: Seq<char>) -> Seq<char> {
    if token.len() > 0 && token[0] == ':' {
        before(token.skip(1), '!')
    } else {
        before(token, '!')
    }
}

/// The event for a line that is no well-formed message: the line itself,
/// with no sender and no receiver.
pub open spec fn protocol_error(line: Seq<char>) -> ParsedView {
    ParsedView::Event(
        EventView {
            event_type: EventType::Error,
            sender: Seq::empty(),
            receiver: Seq::empty(),
            message: line,
        },
    )
}

/// A presence message `text`, markers included: the action is its first
/// word, the locator runs from behind the first `[` to the next space.
pub open spec fn parse_presence(
    line: Seq<char>,
    sender: Seq<char>,
    identity: Seq<char>,
    text: Seq<char>,
) -> ParsedView {
    if text.len() < 2 {
        protocol_error(line)
    } else {
        let inner = text.subrange(1, text.len() - 1);
        if first_index(inner, '[') == inner.len() {
            protocol_error(line)
        } else {
            ParsedView::Presence(
                PresenceView {
                    sender,
                    receiver: identity,
                    action: before(inner, ' '),
                    locator: before(after(inner, '['), ' '),
                },
            )
        }
    }
}

/// A chat message with body `body`: the body loses as many characters as
/// the identity has, and two more; what is left is the message, or a
/// presence message where it starts with the marker.
pub open spec fn parse_chat(
    line: Seq<char>,
    sender: Seq<char>,
    identity: Seq<char>,
    body: Seq<char>,
) -> ParsedView {
    if body.len() <= identity.len() + 2 {
        protocol_error(line)
    } else {
        let text = body.skip(identity.len() as int + 2);
        if text[0] == MARKER {
            parse_presence(line, sender, identity, text)
        } else {
            ParsedView::Event(
                EventView {
                    event_type: EventType::PrivMsg,
                    sender,
                    receiver: identity,
                    message: text,
                },
            )
        }
    }
}

/// What `line` means to the client known as `identity`.
pub open spec fn parse(line: Seq<char>, identity: Seq<char>) -> ParsedView {
    if "PING"@.is_prefix_of(line) {
        ParsedView::Event(
            EventView {
                event_type: EventType::Ping,
                sender: Seq::empty(),
                receiver: Seq::empty(),
                message: line,
            },
        )
    } else if first_index(line, ' ') == line.len() {
        protocol_error(line)
    } else {
        let sender = sender_of(before(line, ' '));
        let rest = after(line, ' ');
        let body = trim(after(rest, ' '));
        match command_kind(before(rest, ' ')) {
            EventType::Error => protocol_error(line),
            EventType::PrivMsg => parse_chat(line, sender, identity, body),
            kind => ParsedView::Event(
                EventView { event_type: kind, sender, receiver: identity, message: body },
            ),
        }
    }
}

/// Looks a command token up in the table.
pub fn lookup_command(v: &Vec<char>, from: usize, to: usize) -> (kind: EventType)
    requires
        from <= to <= v.len(),
    ensures
        kind == command_kind(v@.subrange(from as int, to as int)),
{
    if range_is(v, from, to, "464") {
        EventType::AuthFailed
    } else if range_is(v, from, to, "001") {
        EventType::AuthSuccess
    } else if range_is(v, from, to, "375") {
        EventType::MotdStart
    } else if range_is(v, from, to, "372") {
        EventType::Motd
    } else if range_is(v, from, to, "376") {
        EventType::MotdEnd
    } else if range_is(v, from, to, "QUIT") {
        EventType::Quit
    } else if range_is(v, from, to, "PRIVMSG") {
        EventType::PrivMsg
    } else {
        EventType::Error
    }
}

/// Splitting a range at the first `c` in it, by positions in the whole.
proof fn lemma_split(s: Seq<char>, from: int, to: int, c: char)
    requires
        0 <= from <= to <= s.len(),
    ensures
        ({
            let i = from + first_index(s.subrange(from, to), c);
            &&& from <= i <= to
            &&& before(s.subrange(from, to), c) == s.subrange(from, i)
            &&& i < to ==> after(s.subrange(from, to), c) == s.subrange(i + 1, to)
            &&& i == to ==> after(s.subrange(from, to), c) == Seq::<char>::empty()
        }),
{
    let part = s.subrange(from, to);
    let i = from + first_index(part, c);
    crate::text::lemma_first_index(part, c);
    assert(before(part, c) =~= s.subrange(from, i));
    if i < to {
        assert(after(part, c) =~= s.subrange(i + 1, to));
    }
}

/// Bounds of the sender identity in the sender reference `from..to`.
fn sender_range(v: &Vec<char>, from: usize, to: usize) -> (r: (usize, usize))
    requires
        from <= to <= v.len(),
    ensures
        from <= r.0 <= r.1 <= to,
        v@.subrange(r.0 as int, r.1 as int) == sender_of(v@.subrange(from as int, to as int)),
{
    let start: usize = if from < to && v[from] == ':' {
        from + 1
    } else {
        from
    };
    let end = find_in(v, start, to, '!');
    proof {
        let token = v@.subrange(from as int, to as int);
        lemma_split(v@, start as int, to as int, '!');
        if start > from {
            assert(token.skip(1) =~= v@.subrange(start as int, to as int));
        }
    }
    (start, end)
}

/// The characters `from..to` of `line`, as a string of its own.
fn text_of(line: &str, from: usize, to: usize) -> (s: String)
    requires
        from <= to <= line@.len(),
    ensures
        s@ == line@.subrange(from as int, to as int),
{
    line.substring_char(from, to).to_owned()
}

/// The event for a line that is no well-formed message.
fn error_event(line: &str) -> (parsed: Parsed)
    ensures
        parsed@ == protocol_error(line@),
{
    Parsed::Event(
        BanchoEvent {
            event_type: EventType::Error,
            sender: String::new(),
            receiver: String::new(),
            message: line.to_owned(),
        },
    )
}

/// Parses the presence message that stands in `from..to`, markers included.
fn presence_of(
    line: &str,
    v: &Vec<char>,
    sender: String,
    identity: &str,
    from: usize,
    to: usize,
) -> (parsed: Parsed)
    requires
        v@ == line@,
        from <= to <= v.len(),
    ensures
        parsed@ == parse_presence(
            line@,
            sender@,
            identity@,
            line@.subrange(from as int, to as int),
        ),
{
    if to - from < 2 {
        return error_event(line);
    }
    let lo: usize = from + 1;
    let hi: usize = to - 1;
    let open = find_in(v, lo, hi, '[');
    proof {
        let text = line@.subrange(from as int, to as int);
        assert(text.subrange(1, text.len() - 1) =~= v@.subrange(lo as int, hi as int));
    }
    if open == hi {
        return error_event(line);
    }
    let verb_end = find_in(v, lo, hi, ' ');
    let locator_end = find_in(v, open + 1, hi, ' ');
    proof {
        lemma_split(v@, lo as int, hi as int, '[');
        lemma_split(v@, lo as int, hi as int, ' ');
        lemma_split(v@, open + 1, hi as int, ' ');
    }
    Parsed::Presence(
        Presence {
            sender,
            receiver: identity.to_owned(),
            action: text_of(line, lo, verb_end),
            locator: text_of(line, open + 1, locator_end),
        },
    )
}

/// Parses a chat message whose trimmed body stands in `from..to`.
fn chat_of(
    line: &str,
    v: &Vec<char>,
    sender: String,
    identity: &str,
    from: usize,
    to: usize,
) -> (parsed: Parsed)
    requires
        v@ == line@,
        from <= to <= v.len(),
    ensures
        parsed@ == parse_chat(line@, sender@, identity@, line@.subrange(from as int, to as int)),
{
    let name_len = identity.unicode_len();
    let body_len: usize = to - from;
    if body_len <= name_len || body_len - name_len <= 2 {
        return error_event(line);
    }
    let start: usize = from + name_len + 2;
    proof {
        let body = line@.subrange(from as int, to as int);
        assert(body.skip(identity@.len() as int + 2) =~= line@.subrange(start as int, to as int));
    }
    if v[start] == MARKER {
        presence_of(line, v, sender, identity, start, to)
    } else {
        Parsed::Event(
            BanchoEvent {
                event_type: EventType::PrivMsg,
                sender,
                receiver: identity.to_owned(),
                message: text_of(line, start, to),
            },
        )
    }
}

/// Parses one raw line as the client known as `identity` reads it.
///
/// Total: a line that is no well-formed message gives an `Error` event that
/// carries the line, never a failure. A presence message gives
/// `Parsed::Presence`; its event is complete once the summary is known.
pub fn parse_line(line: &str, identity: &str) -> (parsed: Parsed)
    ensures
        parsed@ == parse(line@, identity@),
{
    let v = chars_of(line);
    let n: usize = v.len();
    proof {
        reveal_strlit("PING");
        assert(v@.subrange(0, n as int) =~= line@);
    }
    if n >= 4 && range_is(&v, 0, 4, "PING") {
        return Parsed::Event(
            BanchoEvent {
                event_type: EventType::Ping,
                sender: String::new(),
                receiver: String::new(),
                message: line.to_owned(),
            },
        );
    }
    let first_space = find_in(&v, 0, n, ' ');
    if first_space == n {
        return error_event(line);
    }
    let second_space = find_in(&v, first_space + 1, n, ' ');
    proof {
        lemma_split(v@, 0, n as int, ' ');
        lemma_split(v@, first_space + 1, n as int, ' ');
    }
    let kind = lookup_command(&v, first_space + 1, second_space);
    let body_from: usize = if second_space < n {
        second_space + 1
    } else {
        n
    };
    proof {
        assert(after(after(line@, ' '), ' ') =~= v@.subrange(body_from as int, n as int));
    }
    let body = trim_range(&v, body_from, n);
    let who = sender_range(&v, 0, first_space);
    let sender = text_of(line, who.0, who.1);
    match kind {
        EventType::Error => error_event(line),
        EventType::PrivMsg => chat_of(line, &v, sender, identity, body.0, body.1),
        _ => Parsed::Event(
            BanchoEvent {
                event_type: kind,
                sender,
                receiver: identity.to_owned(),
                message: text_of(line, body.0, body.1),
            },
        ),
    }
}

/// The actions a presence message is expected to name.
pub open spec fn is_known_action(action: Seq<char>) -> bool {
    ||| action == "listening"@
    ||| action == "playing"@
    ||| action == "watching"@
    ||| action == "editing"@
}

/// The chat event that a presence message becomes once the summary of its
/// resource is known: the summary is its message.
pub open spec fn completed(presence: PresenceView, summary: Seq<char>) -> EventView {
    EventView {
        event_type: EventType::PrivMsg,
        sender: presence.sender,
        receiver: presence.receiver,
        message: summary,
    }
}

/// The kind of the event that a parse result is, or will become.
pub open spec fn kind_of(parsed: ParsedView) -> EventType {
    match parsed {
        ParsedView::Event(event) => event.event_type,
        ParsedView::Presence(_) => EventType::PrivMsg,
    }
}

impl Presence {
    /// Tells whether the action is one of the expected four. An unknown
    /// action is worth a note in the log and changes nothing else.
    pub fn known_action(&self) -> (known: bool)
        ensures
            known == is_known_action(self.action@),
    {
        let v = chars_of(self.action.as_str());
        let n: usize = v.len();
        proof {
            assert(v@.subrange(0, n as int) =~= self.action@);
        }
        range_is(&v, 0, n, "listening") || range_is(&v, 0, n, "playing") || range_is(
            &v,
            0,
            n,
            "watching",
        ) || range_is(&v, 0, n, "editing")
    }

    /// Makes the event, given the summary of the resource at `locator`.
    pub fn complete(self, summary: String) -> (event: BanchoEvent)
        ensures
            event@ == completed(self@, summary@),
    {
        BanchoEvent {
            event_type: EventType::PrivMsg,
            sender: self.sender,
            receiver: self.receiver,
            message: summary,
        }
    }
}

/// The command word of a line: its second word.
pub open spec fn command_of(line: Seq<char>) -> Seq<char> {
    before(after(line, ' '), ' ')
}

/// The message body of a line: what follows its second space, trimmed.
pub open spec fn body_of(line: Seq<char>) -> Seq<char> {
    trim(after(after(line, ' '), ' '))
}

/// A chat body that holds a message for `identity`: something follows the
/// addressing, and where that is a presence message, it has both markers
/// and a `[` between them.
pub open spec fn chat_well_formed(identity: Seq<char>, body: Seq<char>) -> bool {
    &&& body.len() > identity.len() + 2
    &&& body[identity.len() as int + 2] == MARKER ==> {
        let text = body.skip(identity.len() as int + 2);
        &&& text.len() >= 2
        &&& first_index(text.subrange(1, text.len() - 1), '[') < text.len() - 2
    }
}

/// The table, entry by entry.
pub proof fn lemma_command_table()
    ensures
        command_kind("464"@) == EventType::AuthFailed,
        command_kind("001"@) == EventType::AuthSuccess,
        command_kind("375"@) == EventType::MotdStart,
        command_kind("372"@) == EventType::Motd,
        command_kind("376"@) == EventType::MotdEnd,
        command_kind("QUIT"@) == EventType::Quit,
        command_kind("PRIVMSG"@) == EventType::PrivMsg,
{
    reveal_strlit("464");
    reveal_strlit("001");
    reveal_strlit("375");
    reveal_strlit("372");
    reveal_strlit("376");
    reveal_strlit("QUIT");
    reveal_strlit("PRIVMSG");
    assert("QUIT"@.len() == 4 && "PRIVMSG"@.len() == 7);
    assert("464"@.len() == 3 && "001"@.len() == 3 && "375"@.len() == 3);
    assert("372"@.len() == 3 && "376"@.len() == 3);
    assert("464"@[0] != "001"@[0]);
    assert("464"@[0] != "375"@[0]);
    assert("375"@[2] != "372"@[2]);
    assert("375"@[2] != "376"@[2]);
    assert("372"@[2] != "376"@[2]);
}

/// A line that does not open with `PING` and whose command word stands in
/// the table parses to the kind that the table gives, with the sender's
/// identity and the local identity; for a chat message, where its body is
/// well formed.
pub proof fn lemma_mapped_command(line: Seq<char>, identity: Seq<char>)
    requires
        !"PING"@.is_prefix_of(line),
        first_index(line, ' ') < line.len(),
        command_kind(command_of(line)) != EventType::Error,
        command_kind(command_of(line)) == EventType::PrivMsg ==> chat_well_formed(
            identity,
            body_of(line),
        ),
    ensures
        kind_of(parse(line, identity)) == command_kind(command_of(line)),
        command_kind(command_of(line)) != EventType::PrivMsg ==> parse(line, identity)
            == ParsedView::Event(
            EventView {
                event_type: command_kind(command_of(line)),
                sender: sender_of(before(line, ' ')),
                receiver: identity,
                message: body_of(line),
            },
        ),
{
    crate::text::lemma_first_index(line, ' ');
    if command_kind(command_of(line)) == EventType::PrivMsg {
        let text = body_of(line).skip(identity.len() as int + 2);
        crate::text::lemma_first_index(text.subrange(1, text.len() - 1), '[');
    }
}

/// A line that does not open with `PING` and whose command word is not in
/// the table, or that has no second word at all, parses to an `Error`
/// event whose message is the line as it came.
pub proof fn lemma_unmapped_command(line: Seq<char>, identity: Seq<char>)
    requires
        !"PING"@.is_prefix_of(line),
        first_index(line, ' ') == line.len() || command_kind(command_of(line))
            == EventType::Error,
    ensures
        parse(line, identity) == protocol_error(line),
{
    crate::text::lemma_first_index(line, ' ');
}

/// Whatever the line, the parse result is one of three: an event without
/// receiver, an event addressed to the local identity, or a presence
/// message addressed to it. A line that gives an `Error` or a `Ping` event
/// is that event's message.
pub proof fn lemma_parse_receiver(line: Seq<char>, identity: Seq<char>)
    ensures
        match parse(line, identity) {
            ParsedView::Event(event) => {
                &&& event.event_type == EventType::Ping || event.event_type == EventType::Error
                    ==> event.message == line && event.sender.len() == 0
                    && event.receiver.len() == 0
                &&& event.event_type != EventType::Ping && event.event_type != EventType::Error
                    ==> event.receiver == identity
            },
            ParsedView::Presence(presence) => presence.receiver == identity,
        },
{
}

} // verus!
