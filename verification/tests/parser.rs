use nasus::event::{BanchoEvent, EventType};
use nasus::parser::{parse_line, Parsed};
use nasus::text::{chars_of, find_in, is_blank_char, range_is, trim_range};

fn event_of(line: &str, identity: &str) -> BanchoEvent {
    match parse_line(line, identity) {
        Parsed::Event(event) => event,
        Parsed::Presence(presence) => panic!("a presence message: {:?}", presence),
    }
}

#[test]
fn ping_line_gives_keep_alive() {
    let event = event_of("PING cho.example\r\n", "Bob");
    assert_eq!(event.event_type, EventType::Ping);
    assert_eq!(event.message, "PING cho.example\r\n");
    assert_eq!(event.sender, "");
    assert_eq!(event.receiver, "");
}

#[test]
fn ping_check_comes_before_the_command_table() {
    let event = event_of("PING 001 Bob :welcome", "Bob");
    assert_eq!(event.event_type, EventType::Ping);
    assert_eq!(event.message, "PING 001 Bob :welcome");
    let event = event_of("PINGU!cho@x PRIVMSG Bob :hello", "Bob");
    assert_eq!(event.event_type, EventType::Ping);
}

#[test]
fn short_of_ping_is_no_ping() {
    let event = event_of("PIN", "Bob");
    assert_eq!(event.event_type, EventType::Error);
    assert_eq!(event.message, "PIN");
    let event = event_of(":PING 372 Bob :x", "Bob");
    assert_eq!(event.event_type, EventType::Motd);
}

#[test]
fn private_message_to_local_identity() {
    let event = event_of(":Alice!cho@x PRIVMSG Bob :hello there", "Bob");
    assert_eq!(event.event_type, EventType::PrivMsg);
    assert_eq!(event.sender, "Alice");
    assert_eq!(event.receiver, "Bob");
    assert_eq!(event.message, "hello there");
}

#[test]
fn private_message_loses_its_line_end() {
    let event = event_of(":Alice!cho@x PRIVMSG Bob :hello there\r\n", "Bob");
    assert_eq!(event.event_type, EventType::PrivMsg);
    assert_eq!(event.message, "hello there");
}

#[test]
fn every_command_of_the_table_maps_to_its_kind() {
    let table = [
        ("464", EventType::AuthFailed),
        ("001", EventType::AuthSuccess),
        ("375", EventType::MotdStart),
        ("372", EventType::Motd),
        ("376", EventType::MotdEnd),
        ("QUIT", EventType::Quit),
    ];
    for (token, kind) in table {
        let line = format!(":cho.example {} Bob :some text\r\n", token);
        let event = event_of(&line, "Bob");
        assert_eq!(event.event_type, kind);
        assert_eq!(event.sender, "cho.example");
        assert_eq!(event.receiver, "Bob");
        assert_eq!(event.message, "Bob :some text");
    }
    let event = event_of(":a!b PRIVMSG Bob :x", "Bob");
    assert_eq!(event.event_type, EventType::PrivMsg);
}

#[test]
fn unmapped_command_gives_error_with_the_raw_line() {
    for line in [
        ":cho.example 999 Bob :what\r\n",
        ":cho.example privmsg Bob :lower case\r\n",
        ":cho.example 0010 Bob :x",
        ":cho.example  372 Bob :two spaces",
        ":cho.example QUI",
    ] {
        let event = event_of(line, "Bob");
        assert_eq!(event.event_type, EventType::Error);
        assert_eq!(event.message, line);
        assert_eq!(event.sender, "");
        assert_eq!(event.receiver, "");
    }
}

#[test]
fn line_without_a_second_word_gives_error() {
    for line in ["", "\r\n", ":cho.example\r\n", "x"] {
        let event = event_of(line, "Bob");
        assert_eq!(event.event_type, EventType::Error);
        assert_eq!(event.message, line);
    }
}

#[test]
fn command_without_a_body_has_an_empty_message() {
    let event = event_of(":Alice!cho@x QUIT", "Bob");
    assert_eq!(event.event_type, EventType::Quit);
    assert_eq!(event.sender, "Alice");
    assert_eq!(event.message, "");
    let event = event_of(":Alice!cho@x QUIT ", "Bob");
    assert_eq!(event.event_type, EventType::Quit);
    assert_eq!(event.message, "");
}

#[test]
fn sender_is_what_stands_before_the_first_bang() {
    assert_eq!(event_of(":Alice!cho@x!y QUIT :bye", "Bob").sender, "Alice");
    assert_eq!(event_of("Alice!cho QUIT :bye", "Bob").sender, "Alice");
    assert_eq!(event_of(":cho.example QUIT :bye", "Bob").sender, "cho.example");
    assert_eq!(event_of("::Alice!x QUIT :bye", "Bob").sender, ":Alice");
    assert_eq!(event_of(":!x QUIT :bye", "Bob").sender, "");
    assert_eq!(event_of(" QUIT :bye", "Bob").sender, "");
}

#[test]
fn body_keeps_its_inner_spaces() {
    let event = event_of(":s 372 Bob :-  two  spaces  \r\n", "Bob");
    assert_eq!(event.message, "Bob :-  two  spaces");
}

#[test]
fn body_is_trimmed_of_all_white_space() {
    let event = event_of(":s 372 \u{3000}\t body\u{2003}\u{a0}\u{85}\r\n", "Bob");
    assert_eq!(event.message, "body");
    let event = event_of(":s 372 \u{200b}body\u{200b}", "Bob");
    assert_eq!(event.message, "\u{200b}body\u{200b}");
}

#[test]
fn blank_characters_are_those_of_the_standard_library() {
    for code in 0..=0x10FFFFu32 {
        if let Some(c) = char::from_u32(code) {
            assert_eq!(is_blank_char(c), c.is_whitespace(), "U+{:04X}", code);
        }
    }
}

#[test]
fn trim_range_agrees_with_the_standard_library() {
    for text in ["", " ", "  a  ", "a", "\t\r\n", " a b ", "\u{2028}x y\u{2029}", "a \u{1680}"] {
        let v = chars_of(text);
        let (from, to) = trim_range(&v, 0, v.len());
        let got: String = v[from..to].iter().collect();
        assert_eq!(got, text.trim());
    }
}

#[test]
fn trim_range_stays_inside_its_bounds() {
    let v = chars_of("  ab  ");
    assert_eq!(trim_range(&v, 1, 5), (2, 4));
    assert_eq!(trim_range(&v, 3, 3), (3, 3));
    assert_eq!(trim_range(&v, 4, 6), (6, 6));
    assert_eq!(trim_range(&v, 0, 2), (2, 2));
}

#[test]
fn chars_of_gives_every_character() {
    assert_eq!(chars_of("a\u{e9}\u{1F600}b"), vec!['a', '\u{e9}', '\u{1F600}', 'b']);
    assert_eq!(chars_of(""), Vec::<char>::new());
}

#[test]
fn find_in_gives_the_first_place_or_the_end() {
    let v = chars_of("a b c");
    assert_eq!(find_in(&v, 0, 5, ' '), 1);
    assert_eq!(find_in(&v, 2, 5, ' '), 3);
    assert_eq!(find_in(&v, 4, 5, ' '), 5);
    assert_eq!(find_in(&v, 2, 3, ' '), 3);
    assert_eq!(find_in(&v, 1, 1, ' '), 1);
}

#[test]
fn range_is_compares_the_whole_range() {
    let v = chars_of("xQUITx");
    assert!(range_is(&v, 1, 5, "QUIT"));
    assert!(!range_is(&v, 1, 4, "QUIT"));
    assert!(!range_is(&v, 0, 4, "QUIT"));
    assert!(!range_is(&v, 1, 5, "QUIP"));
    assert!(range_is(&v, 2, 2, ""));
}

#[test]
fn chat_body_is_cut_by_the_length_of_the_identity() {
    let event = event_of(":Alice!x PRIVMSG Carol :hello", "Bob");
    assert_eq!(event.event_type, EventType::PrivMsg);
    assert_eq!(event.receiver, "Bob");
    assert_eq!(event.message, " :hello");
    let event = event_of(":Alice!x PRIVMSG J\u{fc}rgen :gr\u{fc}\u{df}e", "J\u{fc}rgen");
    assert_eq!(event.message, "gr\u{fc}\u{df}e");
}

#[test]
fn chat_with_nothing_behind_the_addressing_gives_error() {
    for line in [
        ":Alice!x PRIVMSG",
        ":Alice!x PRIVMSG Bob",
        ":Alice!x PRIVMSG Bob :",
        ":Alice!x PRIVMSG Bob :\r\n",
        ":Alice!x PRIVMSG Bo :",
    ] {
        let event = event_of(line, "Bob");
        assert_eq!(event.event_type, EventType::Error, "{:?}", line);
        assert_eq!(event.message, line);
        assert_eq!(event.sender, "");
        assert_eq!(event.receiver, "");
    }
}

#[test]
fn presence_message_names_its_locator() {
    let line = ":Alice!cho@x PRIVMSG Bob :\u{1}listening to [http://example/1 Song]\u{1}";
    let presence = match parse_line(line, "Bob") {
        Parsed::Presence(presence) => presence,
        Parsed::Event(event) => panic!("an event: {:?}", event),
    };
    assert_eq!(presence.sender, "Alice");
    assert_eq!(presence.receiver, "Bob");
    assert_eq!(presence.action, "listening");
    assert_eq!(presence.locator, "http://example/1");
    assert!(presence.known_action());
    let event = presence.complete("95%: 100pp".to_string());
    assert_eq!(event.event_type, EventType::PrivMsg);
    assert_eq!(event.sender, "Alice");
    assert_eq!(event.receiver, "Bob");
    assert_eq!(event.message, "95%: 100pp");
}

#[test]
fn presence_message_with_line_end() {
    let line = ":Alice!cho@x PRIVMSG Bob :\u{1}ACTION is playing [https://example/b/7#/9 A - B]\u{1}\r\n";
    let presence = match parse_line(line, "Bob") {
        Parsed::Presence(presence) => presence,
        Parsed::Event(event) => panic!("an event: {:?}", event),
    };
    assert_eq!(presence.action, "ACTION");
    assert!(!presence.known_action());
    assert_eq!(presence.locator, "https://example/b/7#/9");
}

#[test]
fn presence_locator_runs_to_the_end_without_a_space() {
    let line = ":Alice!x PRIVMSG Bob :\u{1}editing [http://example/2]\u{1}";
    match parse_line(line, "Bob") {
        Parsed::Presence(presence) => {
            assert_eq!(presence.action, "editing");
            assert_eq!(presence.locator, "http://example/2]");
        }
        Parsed::Event(event) => panic!("an event: {:?}", event),
    }
    let line = ":Alice!x PRIVMSG Bob :\u{1}[\u{1}";
    match parse_line(line, "Bob") {
        Parsed::Presence(presence) => {
            assert_eq!(presence.action, "[");
            assert_eq!(presence.locator, "");
        }
        Parsed::Event(event) => panic!("an event: {:?}", event),
    }
}

#[test]
fn presence_without_bracket_or_markers_gives_error() {
    for line in [
        ":Alice!x PRIVMSG Bob :\u{1}",
        ":Alice!x PRIVMSG Bob :\u{1}\u{1}",
        ":Alice!x PRIVMSG Bob :\u{1}watching nothing\u{1}",
        ":Alice!x PRIVMSG Bob :\u{1}watching nothing[",
    ] {
        let event = event_of(line, "Bob");
        assert_eq!(event.event_type, EventType::Error, "{:?}", line);
        assert_eq!(event.message, line);
    }
}

#[test]
fn known_actions_are_the_four() {
    for (verb, known) in [
        ("listening", true),
        ("playing", true),
        ("watching", true),
        ("editing", true),
        ("Listening", false),
        ("listen", false),
        ("", false),
        ("ACTION", false),
    ] {
        let line = format!(":a!b PRIVMSG Bob :\u{1}{} [x y]\u{1}", verb);
        match parse_line(&line, "Bob") {
            Parsed::Presence(presence) => {
                assert_eq!(presence.action, verb);
                assert_eq!(presence.known_action(), known, "{:?}", verb);
            }
            Parsed::Event(event) => panic!("an event: {:?}", event),
        }
    }
}

#[test]
fn marker_inside_the_text_is_no_presence() {
    let event = event_of(":a!b PRIVMSG Bob :x\u{1}listening [u v]\u{1}", "Bob");
    assert_eq!(event.event_type, EventType::PrivMsg);
    assert_eq!(event.message, "x\u{1}listening [u v]\u{1}");
}
