use chat_core::message::Msg;
use chat_core::server::{ChatServer, HandlerState, SessionEvent};

type Frame = Result<warp::ws::Message, warp::Error>;
type Rx = tokio::sync::mpsc::UnboundedReceiver<Frame>;

fn new_queue() -> (tokio::sync::mpsc::UnboundedSender<Frame>, Rx) {
    tokio::sync::mpsc::unbounded_channel()
}

fn recv_text(rx: &mut Rx) -> Option<String> {
    match rx.try_recv() {
        Ok(Ok(msg)) => Some(msg.to_str().expect("expected a text frame").to_string()),
        Ok(Err(_)) => panic!("unexpected error frame"),
        Err(_) => None,
    }
}

fn recv_binary(rx: &mut Rx) -> Option<Vec<u8>> {
    match rx.try_recv() {
        Ok(Ok(msg)) => {
            assert!(msg.is_binary());
            Some(msg.as_bytes().to_vec())
        }
        Ok(Err(_)) => panic!("unexpected error frame"),
        Err(_) => None,
    }
}

fn drain_texts(rx: &mut Rx) -> Vec<String> {
    let mut out = Vec::new();
    while let Some(t) = recv_text(rx) {
        out.push(t);
    }
    out
}

#[test]
fn message_classification() {
    assert!(Msg::Text("hi".to_string()).is_text());
    assert!(!Msg::Binary(vec![0, 1]).is_text());
}

#[test]
fn joins_count_entries() {
    let mut server = ChatServer::new();
    let mut handles = Vec::new();
    let mut receivers = Vec::new();
    for _ in 0..5 {
        let (tx, rx) = new_queue();
        let (h, replayed) = server.join(tx);
        assert_eq!(replayed, 0);
        handles.push(h);
        receivers.push(rx);
    }
    assert_eq!(server.registry.len(), 5);
    for (i, h) in handles.iter().enumerate() {
        assert!(server.registry.contains(*h));
        for other in handles.iter().skip(i + 1) {
            assert_ne!(h, other);
        }
    }
}

#[test]
fn replay_is_prefix_exact() {
    let mut server = ChatServer::new();
    let (tx_a, mut rx_a) = new_queue();
    server.join(tx_a);
    for text in ["one", "two", "three"] {
        server.broadcast(&Msg::Text(text.to_string()));
    }
    assert_eq!(drain_texts(&mut rx_a), vec!["one", "two", "three"]);

    let (tx_b, mut rx_b) = new_queue();
    let (_, replayed) = server.join(tx_b);
    assert_eq!(replayed, 3);
    assert_eq!(drain_texts(&mut rx_b), vec!["one", "two", "three"]);
    assert!(recv_text(&mut rx_b).is_none());
}

#[test]
fn binary_never_replayed() {
    let mut server = ChatServer::new();
    let (tx_a, mut rx_a) = new_queue();
    server.join(tx_a);
    server.broadcast(&Msg::Binary(vec![1, 2, 3]));
    server.broadcast(&Msg::Text("hello".to_string()));
    server.broadcast(&Msg::Binary(vec![4, 5]));
    assert_eq!(recv_binary(&mut rx_a), Some(vec![1, 2, 3]));
    assert_eq!(recv_text(&mut rx_a), Some("hello".to_string()));
    assert_eq!(recv_binary(&mut rx_a), Some(vec![4, 5]));

    let snapshot = server.history.snapshot();
    assert_eq!(snapshot, vec!["hello".to_string()]);

    let (tx_b, mut rx_b) = new_queue();
    let (_, replayed) = server.join(tx_b);
    assert_eq!(replayed, 1);
    assert_eq!(drain_texts(&mut rx_b), vec!["hello"]);
}

#[test]
fn one_sender_keeps_order() {
    let mut server = ChatServer::new();
    let (tx_a, _rx_a) = new_queue();
    let (tx_b, mut rx_b) = new_queue();
    server.join(tx_a);
    server.join(tx_b);
    server.broadcast(&Msg::Text("m1".to_string()));
    server.broadcast(&Msg::Text("m2".to_string()));
    assert_eq!(drain_texts(&mut rx_b), vec!["m1", "m2"]);
}

#[test]
fn failed_send_prunes_exactly_that_client() {
    let mut server = ChatServer::new();
    let (tx_a, mut rx_a) = new_queue();
    let (tx_b, rx_b) = new_queue();
    let (tx_c, mut rx_c) = new_queue();
    let (h_a, _) = server.join(tx_a);
    let (h_b, _) = server.join(tx_b);
    let (h_c, _) = server.join(tx_c);

    drop(rx_b);
    server.broadcast(&Msg::Text("still here".to_string()));

    assert_eq!(server.registry.len(), 2);
    assert!(server.registry.contains(h_a));
    assert!(!server.registry.contains(h_b));
    assert!(server.registry.contains(h_c));
    assert_eq!(drain_texts(&mut rx_a), vec!["still here"]);
    assert_eq!(drain_texts(&mut rx_c), vec!["still here"]);

    server.broadcast(&Msg::Text("again".to_string()));
    assert_eq!(server.registry.len(), 2);
    assert_eq!(drain_texts(&mut rx_a), vec!["again"]);
    assert_eq!(drain_texts(&mut rx_c), vec!["again"]);
}

#[test]
fn deregister_twice_is_noop() {
    let mut server = ChatServer::new();
    let (tx_a, _rx_a) = new_queue();
    let (tx_b, mut rx_b) = new_queue();
    let (h_a, _) = server.join(tx_a);
    let (h_b, _) = server.join(tx_b);

    server.leave(h_a);
    assert_eq!(server.registry.len(), 1);
    server.leave(h_a);
    assert_eq!(server.registry.len(), 1);
    assert!(server.registry.contains(h_b));

    server.broadcast(&Msg::Text("only b".to_string()));
    assert_eq!(drain_texts(&mut rx_b), vec!["only b"]);
}

#[test]
fn handler_close_deregisters_once() {
    let mut server = ChatServer::new();
    let (tx_a, _rx_a) = new_queue();
    let (h_a, _) = server.join(tx_a);
    assert_eq!(server.registry.len(), 1);

    let state = server.on_event(h_a, HandlerState::Relaying, SessionEvent::Closed);
    assert_eq!(state, HandlerState::Disconnected);
    assert_eq!(server.registry.len(), 0);

    let state = server.on_event(h_a, state, SessionEvent::Closed);
    assert_eq!(state, HandlerState::Disconnected);
    assert_eq!(server.registry.len(), 0);
}

#[test]
fn end_to_end_scenario() {
    let mut server = ChatServer::new();

    let (tx_a, mut rx_a) = new_queue();
    let (h_a, replayed_a) = server.join(tx_a);
    assert_eq!(replayed_a, 0);

    let (tx_b, mut rx_b) = new_queue();
    let (h_b, replayed_b) = server.join(tx_b);
    assert_eq!(replayed_b, 0);
    assert!(recv_text(&mut rx_b).is_none());

    let state_a = server.on_event(
        h_a,
        HandlerState::Relaying,
        SessionEvent::Frame(Msg::Text("hi".to_string())),
    );
    assert_eq!(state_a, HandlerState::Relaying);
    assert_eq!(drain_texts(&mut rx_a), vec!["hi"]);
    assert_eq!(drain_texts(&mut rx_b), vec!["hi"]);
    assert_eq!(server.history.snapshot(), vec!["hi".to_string()]);

    let (tx_c, mut rx_c) = new_queue();
    let (h_c, replayed_c) = server.join(tx_c);
    assert_eq!(replayed_c, 1);
    assert_eq!(drain_texts(&mut rx_c), vec!["hi"]);

    drop(rx_b);
    server.on_event(
        h_a,
        HandlerState::Relaying,
        SessionEvent::Frame(Msg::Text("bye".to_string())),
    );
    assert_eq!(server.registry.len(), 2);
    assert!(server.registry.contains(h_a));
    assert!(!server.registry.contains(h_b));
    assert!(server.registry.contains(h_c));
    assert_eq!(drain_texts(&mut rx_c), vec!["bye"]);
}
