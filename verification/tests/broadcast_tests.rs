use xbase::broadcast::{socket_address, Broadcast, ConsumeAction, ProcessEvent};
use xbase::message::{encode_message, encode_wire_line, Level, Message, Stream};

#[test]
fn socket_address_is_deterministic_and_injective_per_char() {
    let a = socket_address("/tmp/proj");
    let b = socket_address("/tmp/proj");
    assert_eq!(a, b);
    assert_eq!(a, "/private/tmp/xbase/%stmp%sproj.socket");
    // the escape character itself is escaped, so roots cannot collide
    assert_eq!(socket_address("a%b"), "/private/tmp/xbase/a%%b.socket");
}

#[test]
fn notify_message_encodes_to_wire_shape() {
    let m = Message::Notify {
        level: Level::Info,
        text: "hello".to_string(),
    };
    assert_eq!(
        encode_message(&m),
        "{\"kind\":\"notify\",\"level\":\"info\",\"text\":\"hello\"}"
    );
}

#[test]
fn log_message_encodes_with_stream_tag() {
    let m = Message::Log {
        stream: Stream::Stderr,
        level: Level::Error,
        text: "boom".to_string(),
    };
    assert_eq!(
        encode_message(&m),
        "{\"kind\":\"log\",\"stream\":\"stderr\",\"level\":\"error\",\"text\":\"boom\"}"
    );
}

#[test]
fn embedded_newlines_are_escaped_on_the_wire() {
    let m = Message::Notify {
        level: Level::Warn,
        text: "a\nb\t\"c\"\\d\u{1}".to_string(),
    };
    let line = encode_wire_line(&m);
    assert_eq!(
        line,
        "{\"kind\":\"notify\",\"level\":\"warn\",\"text\":\"a\\nb\\t\\\"c\\\"\\\\d\\u0001\"}\n"
    );
    // exactly one newline: the terminator
    assert_eq!(line.matches('\n').count(), 1);
}

#[test]
fn messages_fan_out_to_every_attached_client() {
    let mut hub = Broadcast::new("/tmp/p".to_string());
    let c1 = hub.attach_client();
    let c2 = hub.attach_client();
    assert_ne!(c1, c2);
    let writes = hub.notify_info("ready".to_string());
    assert_eq!(writes.len(), 2);
    assert_eq!(writes[0].client, c1);
    assert_eq!(writes[1].client, c2);
    assert_eq!(writes[0].line, writes[1].line);
    assert!(writes[0].line.ends_with('\n'));
}

#[test]
fn client_attached_later_is_not_replayed_earlier_messages() {
    let mut hub = Broadcast::new("/tmp/p".to_string());
    let c1 = hub.attach_client();
    let w1 = hub.notify_info("first".to_string());
    assert_eq!(w1.len(), 1);
    assert_eq!(w1[0].client, c1);
    let c2 = hub.attach_client();
    let w2 = hub.notify_info("second".to_string());
    // the first message was addressed to c1 alone; c2 sees only the second
    assert_eq!(w2.len(), 2);
    assert!(w2.iter().any(|w| w.client == c2));
    assert!(w1.iter().all(|w| w.client != c2));
}

#[test]
fn consume_relays_lines_and_reports_the_outcome() {
    let mut hub = Broadcast::new("/tmp/p".to_string());
    hub.attach_client();
    let act = hub.consume(ProcessEvent::Line {
        stream: Stream::Stdout,
        text: "compiling".to_string(),
    });
    match act {
        ConsumeAction::Deliver { writes } => {
            assert_eq!(writes.len(), 1);
            assert_eq!(
                writes[0].line,
                "{\"kind\":\"log\",\"stream\":\"stdout\",\"level\":\"info\",\"text\":\"compiling\"}\n"
            );
        }
        _ => panic!("a line must be delivered"),
    }
    let act = hub.consume(ProcessEvent::Exited { success: true });
    assert_eq!(act, ConsumeAction::Outcome { success: true });
}

#[test]
fn cancelling_while_streaming_terminates_and_fails_the_outcome() {
    let mut hub = Broadcast::new("/tmp/p".to_string());
    hub.attach_client();
    let act = hub.consume(ProcessEvent::Cancelled);
    // the process is signalled and the outcome receiver resolves to failure
    assert_eq!(act, ConsumeAction::Abort);
}

#[test]
fn close_hands_back_the_endpoint_once() {
    let mut hub = Broadcast::new("/tmp/p".to_string());
    let endpoint = hub.close();
    assert_eq!(endpoint, Some(socket_address("/tmp/p")));
    // idempotent: a second close has nothing left to remove
    assert_eq!(hub.close(), None);
}
