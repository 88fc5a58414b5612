use hoshi::call::{Call, CallPartyEvent, CallPartyStatus};
use hoshi::chat::ChatMessage;
use hoshi::client::{PeerAction, contact_heads};
use hoshi::client::{IncomingCallAction, MessageError, accepts_audio, default_relay_urls, find_call, incoming_call_action, message_record};
use hoshi::client::{
    StepChanges, SyncRoute, alias_from_head, build_call_state_messages, chat_messages_from_head, choose_public_key,
    config_get, contacts_from_head, register_watch, release_watch, route_store_sync, should_close_call,
};
use hoshi::contact::{Contact, ContactType};
use hoshi::net::HoshiPayload as NetPayload;
use hoshi::node::{chat_path, user_path};
use hoshi::record::{HoshiPayload, HoshiRecord};
use hoshi::store::{HeadCommand, StoreHead};

fn head_with(records: Vec<HoshiRecord>) -> StoreHead<HoshiRecord> {
    let mut head = StoreHead::<HoshiRecord>::new("h".to_string());
    for r in records {
        head.insert(r);
    }
    head
}

fn config(id: u128, key: &str, value: &str) -> HoshiRecord {
    HoshiRecord::with_id(id, "me".to_string(), HoshiPayload::Config { key: key.to_string(), value: value.to_string() })
}

fn contact(id: u128, key: &str, t: ContactType) -> HoshiRecord {
    HoshiRecord::with_id(id, "me".to_string(), HoshiPayload::Contact { public_key: key.to_string(), contact_type: t })
}

#[test]
fn the_last_config_record_wins() {
    let head = head_with(vec![config(2, "public_key", "b"), config(1, "public_key", "a"), config(3, "other", "c")]);
    assert_eq!(config_get(&head, "public_key"), Some("b".to_string()));
    assert_eq!(config_get(&head, "other"), Some("c".to_string()));
    assert_eq!(config_get(&head, "missing"), None);
}

#[test]
fn contacts_follow_their_records() {
    let head = head_with(vec![
        contact(1, "alice", ContactType::Contact),
        contact(2, "bob", ContactType::Contact),
        contact(3, "alice", ContactType::Blocked),
        contact(4, "bob", ContactType::Deleted),
        contact(5, "carol", ContactType::Unknown),
        contact(6, "dave", ContactType::Deleted),
    ]);
    let mut contacts: Vec<(String, ContactType)> =
        contacts_from_head(&head).into_iter().map(|c| (c.public_key, c.contact_type)).collect();
    contacts.sort_by(|a, b| a.0.cmp(&b.0));
    assert_eq!(contacts, vec![("alice".to_string(), ContactType::Blocked), ("carol".to_string(), ContactType::Unknown)]);
}

#[test]
fn alias_is_the_authors_last_title() {
    let head = head_with(vec![
        HoshiRecord::with_id(1, "pk".to_string(), HoshiPayload::Title { title: "Alice".to_string() }),
        HoshiRecord::with_id(2, "other".to_string(), HoshiPayload::Title { title: "Mallory".to_string() }),
        HoshiRecord::with_id(3, "pk".to_string(), HoshiPayload::Title { title: "Alicia".to_string() }),
    ]);
    assert_eq!(alias_from_head(&head, "pk"), Some("Alicia".to_string()));
    assert_eq!(alias_from_head(&head, "nobody"), None);
}

#[test]
fn chat_messages_come_from_the_two_parties() {
    // A version-7 id made at Unix millisecond 1_700_000_123_456.
    let v7: u128 = (1_700_000_123_456u128 << 80) | (7u128 << 76) | (2u128 << 62) | 5;
    let head = head_with(vec![
        HoshiRecord::with_id(v7, "us".to_string(), HoshiPayload::Text { content: "hi".to_string() }),
        HoshiRecord::with_id(v7 + 1, "peer".to_string(), HoshiPayload::Text { content: "yo".to_string() }),
        HoshiRecord::with_id(v7 + 2, "mallory".to_string(), HoshiPayload::Text { content: "spam".to_string() }),
        HoshiRecord::with_id(v7 + 3, "peer".to_string(), HoshiPayload::Title { title: "Peer".to_string() }),
        HoshiRecord::with_id(4, "peer".to_string(), HoshiPayload::Text { content: "old".to_string() }),
    ]);
    let msgs = chat_messages_from_head(&head, "us", "peer");
    assert_eq!(msgs.len(), 3);
    assert_eq!(msgs[0].content, "old");
    assert_eq!(msgs[0].created_at, 0);
    assert_eq!(msgs[0].id, "00000000-0000-0000-0000-000000000004");
    assert_eq!(msgs[1].content, "hi");
    assert_eq!(msgs[1].from, "us");
    assert_eq!(msgs[1].to, "peer");
    assert_eq!(msgs[1].created_at, 1_700_000_123);
    assert_eq!(msgs[2].from, "peer");
    assert_eq!(msgs[2].to, "us");
}

#[test]
fn step_changes_collect_each_chat_once() {
    let mut a = StepChanges::new();
    assert!(!a.has_contact_view_changes());
    a.note_chat("/chat/1".to_string());
    a.note_chat("/chat/1".to_string());
    let mut b = StepChanges::new();
    b.note_profiles();
    b.note_chat("/chat/2".to_string());
    b.note_chat("/chat/1".to_string());
    a.merge(b);
    assert!(a.has_contact_view_changes());
    assert_eq!(a.changed_chat_ids(), &vec!["/chat/1".to_string(), "/chat/2".to_string()]);
    let mut c = StepChanges::new();
    c.note_contacts();
    assert!(c.has_contact_view_changes());
}

#[test]
fn watch_handles_unregister() {
    let mut ids = Vec::new();
    let first = register_watch(&mut ids);
    let second = register_watch(&mut ids);
    assert_eq!(ids.len(), 2);
    release_watch(&mut ids, &first);
    assert_eq!(ids, vec![second.id]);
    release_watch(&mut ids, &first);
    assert_eq!(ids.len(), 1);
}

#[test]
fn call_state_goes_to_the_other_live_parties() {
    let mut call = Call::new("me".to_string(), vec![Contact::new("bob".to_string()), Contact::new("carol".to_string())]);
    call.add_event(CallPartyEvent::new("carol".to_string(), CallPartyStatus::HungUp));
    let msgs = build_call_state_messages("me", &call);
    assert_eq!(msgs.len(), 1);
    assert_eq!(msgs[0].from_key, "me");
    assert_eq!(msgs[0].to_key, "bob");
    match &msgs[0].payload {
        NetPayload::UpdateCallState { call_id, events } => {
            assert_eq!(call_id, call.id());
            assert_eq!(events.len(), 4);
        }
        other => panic!("unexpected {other:?}"),
    }
    assert!(!should_close_call(&call, "me"));
    call.add_event(CallPartyEvent::new("bob".to_string(), CallPartyStatus::HungUp));
    assert!(should_close_call(&call, "me"));
    assert!(!should_close_call(&call, "stranger"));
}

#[test]
fn the_identity_key_is_used() {
    assert_eq!(choose_public_key(Some("aa".to_string()), "aa".to_string()), "aa");
    assert_eq!(choose_public_key(Some("bb".to_string()), "aa".to_string()), "aa");
    assert_eq!(choose_public_key(None, "aa".to_string()), "aa");
}

#[test]
fn sync_commands_are_routed() {
    let me = "0a0b";
    let peer = "1c1d";
    let chat = chat_path(me, peer);
    let tip = HeadCommand::<HoshiRecord>::Tip([0u8; 32]);
    match route_store_sync(me, peer, &chat, &tip) {
        SyncRoute::Chat { peer_key } => assert_eq!(peer_key, peer),
        other => panic!("unexpected {other:?}"),
    }
    assert!(matches!(route_store_sync(me, "ffff", &chat, &tip), SyncRoute::Ignore));
    let foreign = HeadCommand::Put(HoshiRecord::with_id(1, "ffff".to_string(), HoshiPayload::Text { content: "x".to_string() }));
    assert!(matches!(route_store_sync(me, peer, &chat, &foreign), SyncRoute::Ignore));
    let ours = HeadCommand::Put(HoshiRecord::with_id(1, me.to_string(), HoshiPayload::Text { content: "x".to_string() }));
    assert!(matches!(route_store_sync(me, peer, &chat, &ours), SyncRoute::Chat { .. }));

    match route_store_sync(me, peer, &user_path(peer), &tip) {
        SyncRoute::Profile { owner_key } => assert_eq!(owner_key, peer),
        other => panic!("unexpected {other:?}"),
    }
    match route_store_sync(me, peer, &user_path(me), &tip) {
        SyncRoute::Profile { owner_key } => assert_eq!(owner_key, me),
        other => panic!("unexpected {other:?}"),
    }
    let put_peer = HeadCommand::Put(HoshiRecord::with_id(1, peer.to_string(), HoshiPayload::Title { title: "P".to_string() }));
    assert!(matches!(route_store_sync(me, peer, &user_path(me), &put_peer), SyncRoute::Ignore));
    assert!(matches!(route_store_sync(me, peer, "/other/x", &tip), SyncRoute::Ignore));
}

#[test]
fn sent_messages_become_text_records() {
    let msg = ChatMessage::new(
        "01890a5d-ac96-774b-bcce-b302099a8057".to_string(),
        0,
        "me".to_string(),
        "you".to_string(),
        "hello".to_string(),
    );
    let rec = message_record("me", &msg).unwrap();
    assert_eq!(rec.id, 0x01890a5d_ac96_774b_bcce_b302099a8057);
    assert_eq!(rec.from, "me");
    assert!(matches!(&rec.payload, HoshiPayload::Text { content } if content == "hello"));
    assert_eq!(message_record("you", &msg).unwrap_err(), MessageError::NotSender);
    let odd = ChatMessage::new("not-a-uuid".to_string(), 0, "me".to_string(), "you".to_string(), "x".to_string());
    let rec = message_record("me", &odd).unwrap();
    assert_eq!((rec.id >> 76) & 0xF, 7);
}

#[test]
fn new_calls_ring_or_are_joined() {
    let mut call = Call::new("bob".to_string(), vec![Contact::new("me".to_string())]);
    assert_eq!(incoming_call_action(&call, "me"), IncomingCallAction::Ring);
    assert!(!accepts_audio(&call, "me"));
    call.add_event(CallPartyEvent::new("me".to_string(), CallPartyStatus::Ringing));
    assert_eq!(incoming_call_action(&call, "me"), IncomingCallAction::Join);
    call.add_event(CallPartyEvent::new("me".to_string(), CallPartyStatus::Active));
    assert!(accepts_audio(&call, "me"));
    call.add_event(CallPartyEvent::new("me".to_string(), CallPartyStatus::HungUp));
    assert_eq!(incoming_call_action(&call, "me"), IncomingCallAction::Ignore);
    assert_eq!(incoming_call_action(&call, "stranger"), IncomingCallAction::Ignore);
    let id = call.id().to_string();
    let calls = vec![Call::new("x".to_string(), vec![]), call];
    assert_eq!(find_call(&calls, &id), Some(1));
    assert_eq!(find_call(&calls, "none"), None);
}

#[test]
fn builds_pick_their_relay() {
    assert_eq!(default_relay_urls(true)[0].url, "wss://127.0.0.1:2800/");
    assert_eq!(default_relay_urls(false)[0].url, "wss://hoshi.rubhub.net:2800/");
}

#[test]
fn a_contact_is_synced_through_its_chat_and_both_profiles() {
    let me = "0a0b";
    let friend = Contact { public_key: "1c1d".to_string(), contact_type: ContactType::Contact };
    let heads = contact_heads(me, &friend, false);
    assert_eq!(heads.chat_path, chat_path(me, "1c1d"));
    assert_eq!(heads.contact_profile_path, user_path("1c1d"));
    assert_eq!(heads.own_profile_path, user_path(me));
    assert_eq!(heads.contact_profile, PeerAction::Add);
    assert_eq!(heads.own_profile, PeerAction::Add);
    assert_eq!(contact_heads(me, &friend, true).contact_profile, PeerAction::AddRequestingTip);
}

#[test]
fn a_blocked_contact_profile_is_not_synced() {
    let me = "0a0b";
    let blocked = Contact { public_key: "1c1d".to_string(), contact_type: ContactType::Blocked };
    let heads = contact_heads(me, &blocked, true);
    assert_eq!(heads.chat_path, "/chat/1616");
    assert_eq!(heads.contact_profile, PeerAction::Drop);
    assert_eq!(heads.own_profile, PeerAction::Drop);
}

#[test]
fn the_chat_path_of_a_key_with_itself_is_zeros() {
    let a = "aa".repeat(32);
    assert_eq!(chat_path(&a, &a), format!("/chat/{}", "00".repeat(32)));
    assert_eq!(chat_path(&a, &"bb".repeat(32)), format!("/chat/{}", "11".repeat(32)));
}
