use hoshi::bots::{calls_to_accept, echo_reply};
use hoshi::chat::ChatMessage;
use hoshi::call::{Call, CallPartyEvent, CallPartyStatus};
use hoshi::audio_chunk::AudioChunk;
use hoshi::calls::{
    call_accept, call_decline, call_index, call_invite_party, call_start, receive_call_audio, receive_call_state,
    retain_calls,
};
use hoshi::contact::Contact;
use hoshi::net::HoshiPayload;

const ME: &str = "aa";
const BOB: &str = "bb";
const CAROL: &str = "cc";

fn started() -> Vec<Call> {
    let mut calls = Vec::new();
    let msgs = call_start(&mut calls, ME.to_string(), vec![Contact::new(BOB.to_string())]);
    assert_eq!(msgs.len(), 1);
    assert_eq!(msgs[0].from_key, ME);
    assert_eq!(msgs[0].to_key, BOB);
    calls
}

#[test]
fn starting_a_call_invites_the_others() {
    let calls = started();
    assert_eq!(calls.len(), 1);
    assert_eq!(calls[0].get_status(ME), Some(CallPartyStatus::Active));
    assert_eq!(calls[0].get_status(BOB), Some(CallPartyStatus::Invited));
}

#[test]
fn accepting_and_declining() {
    let mut calls = started();
    let id = calls[0].id().to_string();
    let msgs = call_accept(&mut calls, ME, &id).unwrap();
    assert_eq!(msgs.len(), 1);
    match &msgs[0].payload {
        HoshiPayload::UpdateCallState { call_id, events } => {
            assert_eq!(call_id, &id);
            assert_eq!(events.len(), 3);
        }
        _ => panic!("expected a call state"),
    }
    let msgs = call_decline(&mut calls, ME, &id).unwrap();
    assert_eq!(calls[0].get_status(ME), Some(CallPartyStatus::HungUp));
    assert_eq!(msgs.len(), 1);
    let err = call_accept(&mut calls, ME, "nope").unwrap_err();
    assert_eq!(err.message(), "Call nope not found");
    assert_eq!(call_index(&calls, &id), Some(0));
    assert_eq!(call_index(&calls, "nope"), None);
}

#[test]
fn inviting_a_party_tells_everyone() {
    let mut calls = started();
    let id = calls[0].id().to_string();
    let msgs = call_invite_party(&mut calls, ME, &id, Contact::new(CAROL.to_string())).unwrap();
    assert_eq!(calls[0].get_status(CAROL), Some(CallPartyStatus::Invited));
    let mut to: Vec<String> = msgs.iter().map(|m| m.to_key.clone()).collect();
    to.sort();
    assert_eq!(to, vec![BOB.to_string(), CAROL.to_string()]);
    assert!(call_invite_party(&mut calls, ME, "nope", Contact::new(CAROL.to_string())).is_err());
}

#[test]
fn an_invitation_rings() {
    let mut calls = Vec::new();
    let events = vec![
        CallPartyEvent::with_id(1, BOB.to_string(), CallPartyStatus::Active),
        CallPartyEvent::with_id(2, ME.to_string(), CallPartyStatus::Invited),
    ];
    let msgs = receive_call_state(&mut calls, ME, "call-1".to_string(), events, &Vec::new());
    assert_eq!(calls.len(), 1);
    assert_eq!(calls[0].get_status(ME), Some(CallPartyStatus::Ringing));
    assert_eq!(msgs.len(), 1);
    assert_eq!(msgs[0].to_key, BOB);
}

#[test]
fn a_call_without_us_is_dropped() {
    let mut calls = Vec::new();
    let events = vec![CallPartyEvent::with_id(1, BOB.to_string(), CallPartyStatus::Active)];
    let msgs = receive_call_state(&mut calls, ME, "call-2".to_string(), events, &Vec::new());
    assert!(calls.is_empty());
    assert!(msgs.is_empty());
}

#[test]
fn we_hang_up_when_everyone_else_has() {
    let mut calls = Vec::new();
    let events = vec![
        CallPartyEvent::with_id(1, BOB.to_string(), CallPartyStatus::Active),
        CallPartyEvent::with_id(2, ME.to_string(), CallPartyStatus::Active),
    ];
    let msgs = receive_call_state(&mut calls, ME, "call-3".to_string(), events, &Vec::new());
    assert!(msgs.is_empty());
    assert_eq!(calls.len(), 1);
    let hung_up = vec![CallPartyEvent::with_id(3, BOB.to_string(), CallPartyStatus::HungUp)];
    let msgs = receive_call_state(&mut calls, ME, "call-3".to_string(), hung_up, &Vec::new());
    assert_eq!(calls[0].get_status(ME), Some(CallPartyStatus::HungUp));
    assert!(msgs.is_empty());
    let changed = retain_calls(&mut calls, ME, 0);
    assert!(changed);
    assert!(calls.is_empty());
}

#[test]
fn calls_with_others_are_kept() {
    let mut calls = started();
    assert!(!retain_calls(&mut calls, ME, 1_000));
    assert_eq!(calls.len(), 1);
    let id = calls[0].id().to_string();
    call_decline(&mut calls, ME, &id).unwrap();
    assert!(retain_calls(&mut calls, ME, 1_000));
    assert!(calls.is_empty());
}

#[test]
fn audio_plays_only_in_active_calls() {
    let mut calls = Vec::new();
    let events = vec![
        CallPartyEvent::with_id(1, BOB.to_string(), CallPartyStatus::Active),
        CallPartyEvent::with_id(2, ME.to_string(), CallPartyStatus::Invited),
    ];
    receive_call_state(&mut calls, ME, "call-4".to_string(), events, &Vec::new());
    let chunk = AudioChunk::ULaw { id: "x".to_string(), chunk_offset: 0, sample_rate: 48000, samples: vec![0xCE] };
    assert!(receive_call_audio(&calls, ME, BOB, "call-4", &chunk).is_none());
    call_accept(&mut calls, ME, "call-4").unwrap();
    let (channel, samples) = receive_call_audio(&calls, ME, BOB, "call-4", &chunk).unwrap();
    assert_eq!(channel, calls[0].get_party_index(BOB).unwrap() + 1);
    assert_eq!(samples, vec![-988]);
    assert!(receive_call_audio(&calls, ME, CAROL, "call-4", &chunk).is_none());
    assert!(receive_call_audio(&calls, ME, BOB, "other", &chunk).is_none());
}

#[test]
fn a_lone_call_is_kept_five_seconds_from_when_it_was_first_seen_alone() {
    let mut calls = Vec::new();
    call_start(&mut calls, ME.to_string(), vec![]);
    let started_at = calls[0].call_started;
    assert!(!retain_calls(&mut calls, ME, 1_000));
    assert_eq!(calls[0].call_ended, Some(1_000));
    assert_eq!(calls[0].call_started, started_at);
    assert!(!retain_calls(&mut calls, ME, 5_999));
    assert_eq!(calls[0].call_ended, Some(1_000));
    assert!(retain_calls(&mut calls, ME, 6_000));
    assert!(calls.is_empty());
}

#[test]
fn a_kept_call_with_others_has_its_end_time_cleared() {
    let mut calls = started();
    calls[0].call_ended = Some(42);
    assert!(!retain_calls(&mut calls, ME, 1_000));
    assert_eq!(calls[0].call_ended, None);
}

#[test]
fn the_echo_bot_answers_the_latest_message_unless_it_is_its_own() {
    let msgs = vec![
        ChatMessage::new("b".to_string(), 2, BOB.to_string(), ME.to_string(), "later".to_string()),
        ChatMessage::new("a".to_string(), 1, BOB.to_string(), ME.to_string(), "first".to_string()),
    ];
    let reply = echo_reply(&msgs, ME).unwrap();
    assert_eq!(reply.from, ME);
    assert_eq!(reply.to, BOB);
    assert_eq!(reply.content, ">> later");
    assert_eq!(reply.created_at, 0);
    assert_eq!(reply.id.len(), 36);
    let mut mine = msgs;
    mine.push(ChatMessage::new("c".to_string(), 3, ME.to_string(), BOB.to_string(), ">> later".to_string()));
    assert!(echo_reply(&mine, ME).is_none());
    assert!(echo_reply(&vec![], ME).is_none());
}

#[test]
fn the_echo_bot_accepts_the_calls_ringing_for_it() {
    let ringing = Call::from_events(
        "r".to_string(),
        vec![
            CallPartyEvent::with_id(1, BOB.to_string(), CallPartyStatus::Active),
            CallPartyEvent::with_id(2, ME.to_string(), CallPartyStatus::Ringing),
        ],
        &vec![],
    );
    let active = Call::from_events("a".to_string(), vec![CallPartyEvent::with_id(1, ME.to_string(), CallPartyStatus::Active)], &vec![]);
    assert_eq!(calls_to_accept(&vec![active, ringing], ME), vec!["r".to_string()]);
}
