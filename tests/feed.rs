use whim::feed::builder::{FeedBuilder, LIVE_URL, SANDBOX_URL};
use whim::feed::channel::{missing_keys, CloseData, FeedState, Frame, Received};
use whim::feed::message::{Channel, OutgoingMessage, Product};

fn text(f: &Frame) -> String {
    match f {
        Frame::Text(t) => t.clone(),
        other => panic!("not a text frame: {:?}", other),
    }
}

#[test]
fn refused_frame_keeps_fifo_order() {
    let mut state = FeedState::new(Frame::Text("a".to_string()));
    assert!(state.queue(Frame::Text("b".to_string())).is_ok());
    let first = state.next_outbound().unwrap();
    assert_eq!(text(&first), "a");
    state.return_unsent(first);
    assert!(state.queue(Frame::Text("c".to_string())).is_ok());
    let mut sent = Vec::new();
    while let Some(f) = state.next_outbound() {
        sent.push(text(&f));
    }
    assert_eq!(sent, vec!["a", "b", "c"]);
    assert!(state.is_drained());
}

#[test]
fn ping_queues_one_pong() {
    let mut state = FeedState::new(Frame::Text("sub".to_string()));
    let _ = state.next_outbound();
    let r = state.receive(Some(Frame::Ping(vec![1, 2, 3])));
    assert!(matches!(r, Received::Answered));
    match state.next_outbound() {
        Some(Frame::Pong(b)) => assert_eq!(b, vec![1, 2, 3]),
        other => panic!("expected pong, got {:?}", other),
    }
    assert!(state.next_outbound().is_none());
}

#[test]
fn close_is_acknowledged_and_later_frames_are_unexpected() {
    let mut state = FeedState::new(Frame::Text("sub".to_string()));
    let _ = state.next_outbound();
    let close = CloseData { status_code: 1000, reason: "bye".to_string() };
    let r = state.receive(Some(Frame::Close(Some(close))));
    assert!(matches!(r, Received::Answered));
    assert!(state.closed());
    match state.next_outbound() {
        Some(Frame::Close(Some(d))) => {
            assert_eq!(d.status_code, 1000);
            assert_eq!(d.reason, "bye");
        }
        other => panic!("expected close, got {:?}", other),
    }
    let r = state.receive(Some(Frame::Ping(vec![9])));
    assert!(matches!(r, Received::Unexpected(Frame::Ping(_))));
    assert!(state.is_drained());
    assert!(state.queue(Frame::Text("late".to_string())).is_err());
    assert!(matches!(state.receive(None), Received::End));
}

#[test]
fn text_binary_and_pong_frames() {
    let mut state = FeedState::new(Frame::Text("sub".to_string()));
    match state.receive(Some(Frame::Text("{}".to_string()))) {
        Received::Message(t) => assert_eq!(t, "{}"),
        other => panic!("expected message, got {:?}", other),
    }
    assert!(matches!(state.receive(Some(Frame::Binary(vec![0]))), Received::Unexpected(Frame::Binary(_))));
    assert!(matches!(state.receive(Some(Frame::Pong(vec![0]))), Received::Unexpected(Frame::Pong(_))));
    assert!(matches!(state.receive(None), Received::End));
    assert!(!state.closed());
}

#[test]
fn missing_keys_are_reported_in_order() {
    let received = vec![
        ("a".to_string(), "1".to_string()),
        ("b".to_string(), "2".to_string()),
        ("c".to_string(), "3".to_string()),
    ];
    let reserialized = vec!["b".to_string(), "type".to_string()];
    let missing = missing_keys(&received, &reserialized);
    assert_eq!(missing, vec![("a".to_string(), "1".to_string()), ("c".to_string(), "3".to_string())]);
    assert!(missing_keys(&received, &vec!["a".to_string(), "b".to_string(), "c".to_string()]).is_empty());
}

#[test]
fn builder_subscribes_to_everything() {
    let b = FeedBuilder::new();
    assert_eq!(b.url(), LIVE_URL);
    let b = b.sandbox(true).subscribe_to_all();
    assert_eq!(b.url(), SANDBOX_URL);
    match b.subscribe_message() {
        OutgoingMessage::Subscribe { channels } => {
            assert_eq!(channels.len(), 5);
            assert_eq!(channels[2].name, Channel::Level2);
            assert_eq!(channels[4].product_ids, vec![Product::BtcUsd, Product::EthUsd, Product::LtcUsd]);
        }
    }
}

#[test]
fn builder_single_subscription() {
    let b = FeedBuilder::new().subscribe(Channel::Ticker, Product::EthUsd);
    match b.subscribe_message() {
        OutgoingMessage::Subscribe { channels } => {
            assert_eq!(channels.len(), 1);
            assert_eq!(channels[0].name, Channel::Ticker);
            assert_eq!(channels[0].product_ids, vec![Product::EthUsd]);
        }
    }
}

#[test]
fn all_lists() {
    assert_eq!(Product::all(), vec![Product::BtcUsd, Product::EthUsd, Product::LtcUsd]);
    assert_eq!(Channel::all().len(), 5);
    assert_eq!(Channel::all()[0], Channel::Full);
}

#[test]
fn lost_entries_reports_dropped_keys() {
    let received = r#"{"type":"ticker","b":"x","a":1}"#;
    let reencoded = r#"{"b":"x","type":"ticker"}"#;
    let lost = whim::feed::channel::lost_entries(received, reencoded).unwrap();
    assert_eq!(lost, vec![("a".to_string(), "1".to_string())]);
    assert_eq!(whim::feed::channel::lost_entries(received, received), Some(vec![]));
}

#[test]
fn lost_entries_needs_objects() {
    assert_eq!(whim::feed::channel::lost_entries("[1, 2]", "{}"), None);
    assert_eq!(whim::feed::channel::lost_entries("{}", "not json"), None);
    assert_eq!(whim::feed::channel::lost_entries("{}", "{}"), Some(vec![]));
}
