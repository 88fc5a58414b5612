use hoshi::net::{HoshiMessage, HoshiNetClient, HoshiPayload};
use hoshi::relay::RelayInfo;

#[test]
fn each_relay_gets_one_pipe() {
    let mut net = HoshiNetClient::new();
    net.update_relays(&vec![
        RelayInfo::new("wss://a".to_string()),
        RelayInfo::from("wss://b"),
        RelayInfo::from("wss://a".to_string()),
    ]);
    let first: Vec<String> = net.relays_to_connect().into_iter().map(|r| r.url).collect();
    assert_eq!(first, vec!["wss://a", "wss://b"]);
    assert!(net.relays_to_connect().is_empty());
    net.update_relays(&vec![RelayInfo::new("wss://c".to_string()), RelayInfo::new("wss://a".to_string())]);
    let second: Vec<String> = net.relays_to_connect().into_iter().map(|r| r.url).collect();
    assert_eq!(second, vec!["wss://c"]);
    net.disconnect_all();
    let third: Vec<String> = net.relays_to_connect().into_iter().map(|r| r.url).collect();
    assert_eq!(third, vec!["wss://c", "wss://a"]);
}

#[test]
fn outbox_drains_in_order() {
    let mut net = HoshiNetClient::new();
    net.set_public_key("me".to_string());
    assert_eq!(net.public_key(), "me");
    net.send(HoshiMessage::new("me".to_string(), "a".to_string(), HoshiPayload::Ping));
    net.send(HoshiMessage::new("me".to_string(), "b".to_string(), HoshiPayload::Pong));
    let out = net.take_outbox();
    assert_eq!(out.len(), 2);
    assert_eq!(out[0].to_key, "a");
    assert!(matches!(out[0].payload, HoshiPayload::Ping));
    assert_eq!(out[1].to_key, "b");
    assert!(net.take_outbox().is_empty());
}
