use hoshi::audio_chunk::AudioChunk;
use hoshi::call::{Call, CallAudio, CallPartyEvent, CallPartyStatus, encode_samples, sort_events};
use hoshi::contact::{Contact, ContactType};

fn keys(call: &Call) -> Vec<String> {
    call.get_party_public_keys()
}

#[test]
fn new_call_invites_parties_and_is_active_for_caller() {
    let call = Call::new("me".to_string(), vec![Contact::new("bob".to_string()), Contact::new_unknown("eve".to_string())]);
    assert_eq!(keys(&call), vec!["bob", "eve", "me"]);
    assert_eq!(call.get_status("me"), Some(CallPartyStatus::Active));
    assert_eq!(call.get_status("bob"), Some(CallPartyStatus::Invited));
    assert_eq!(call.get_status("eve"), Some(CallPartyStatus::Invited));
    assert_eq!(call.get_status("nobody"), None);
    assert_eq!(call.active_party_count(), 1);
    assert_eq!(call.active_or_ringing_party_count(), 3);
    let events = call.events();
    assert_eq!(events.len(), 3);
    assert_eq!(events[0].key(), "me");
    assert_eq!(events[0].status(), CallPartyStatus::Active);
    assert_eq!(events[1].key(), "bob");
    assert_eq!(events[2].key(), "eve");
    assert_eq!(call.id().len(), 36);
    assert!(!call.all_other_parties_hung_up("me"));
    assert_eq!(call.get_party_index("eve"), Some(1));
    assert_eq!(call.get_parties()[1].contact.contact_type, ContactType::Unknown);
}

#[test]
fn status_follows_latest_event_whatever_the_arrival_order() {
    let a = CallPartyEvent::with_id(1, "bob".to_string(), CallPartyStatus::Invited);
    let b = CallPartyEvent::with_id(2, "bob".to_string(), CallPartyStatus::Ringing);
    let c = CallPartyEvent::with_id(3, "bob".to_string(), CallPartyStatus::Active);
    let known = vec![];
    let mut x = Call::from_events("call".to_string(), vec![c.duplicate(), a.duplicate(), b.duplicate()], &known);
    let y = Call::from_events("call".to_string(), vec![a.duplicate(), b.duplicate(), c.duplicate()], &known);
    assert_eq!(x.get_status("bob"), Some(CallPartyStatus::Active));
    assert_eq!(y.get_status("bob"), Some(CallPartyStatus::Active));
    let ids: Vec<u128> = x.events().iter().map(|e| e.id).collect();
    assert_eq!(ids, vec![1, 2, 3]);
    // An older event arriving late does not change the status.
    x.merge_events(vec![CallPartyEvent::with_id(0, "bob".to_string(), CallPartyStatus::HungUp)], &known);
    assert_eq!(x.get_status("bob"), Some(CallPartyStatus::Active));
    // A newer one does.
    x.merge_events(vec![CallPartyEvent::with_id(9, "bob".to_string(), CallPartyStatus::HungUp)], &known);
    assert_eq!(x.get_status("bob"), Some(CallPartyStatus::HungUp));
}

#[test]
fn merging_known_events_changes_nothing() {
    let known = vec![];
    let events = vec![
        CallPartyEvent::with_id(5, "a".to_string(), CallPartyStatus::Active),
        CallPartyEvent::with_id(7, "b".to_string(), CallPartyStatus::Ringing),
    ];
    let mut call = Call::from_events("c".to_string(), events, &known);
    let before: Vec<(u128, String)> = call.events().iter().map(|e| (e.id, e.key.clone())).collect();
    call.merge_events(vec![CallPartyEvent::with_id(7, "b".to_string(), CallPartyStatus::HungUp)], &known);
    let after: Vec<(u128, String)> = call.events().iter().map(|e| (e.id, e.key.clone())).collect();
    assert_eq!(before, after);
    assert_eq!(call.get_status("b"), Some(CallPartyStatus::Ringing));
    assert_eq!(call.get_party_public_keys(), vec!["a", "b"]);
}

#[test]
fn parties_join_with_the_known_contact() {
    let known = vec![Contact { public_key: "b".to_string(), contact_type: ContactType::Blocked }];
    let events = vec![
        CallPartyEvent::with_id(1, "a".to_string(), CallPartyStatus::Active),
        CallPartyEvent::with_id(2, "b".to_string(), CallPartyStatus::Invited),
    ];
    let call = Call::from_events("c".to_string(), events, &known);
    let parties = call.get_parties();
    assert_eq!(parties[0].contact.contact_type, ContactType::Contact);
    assert_eq!(parties[1].contact.contact_type, ContactType::Blocked);
}

#[test]
fn hanging_up_and_inviting() {
    let mut call = Call::new("me".to_string(), vec![Contact::new("bob".to_string())]);
    call.add_event(CallPartyEvent::new("bob".to_string(), CallPartyStatus::HungUp));
    assert_eq!(call.get_status("bob"), Some(CallPartyStatus::HungUp));
    assert!(call.all_other_parties_hung_up("me"));
    assert_eq!(call.non_hungup_party_keys(), vec!["me"]);
    let carol = Contact { public_key: "carol".to_string(), contact_type: ContactType::Unknown };
    call.add_event_with_contact(CallPartyEvent::new("carol".to_string(), CallPartyStatus::Invited), carol);
    assert_eq!(call.get_status("carol"), Some(CallPartyStatus::Invited));
    assert_eq!(call.get_parties()[2].contact.contact_type, ContactType::Unknown);
    assert!(!call.all_other_parties_hung_up("me"));
    assert_eq!(call.non_hungup_party_keys(), vec!["me", "carol"]);
}

#[test]
fn only_party_is_not_all_others_hung_up() {
    let call = Call::new("me".to_string(), vec![]);
    assert!(!call.all_other_parties_hung_up("me"));
    assert_eq!(call.dialing_key(), "");
}

#[test]
fn labels() {
    let me = Contact::new("me".to_string());
    let mut call = Call::new("me".to_string(), vec![Contact::new("bob".to_string())]);
    let names = vec!["Bob".to_string(), "Me".to_string()];
    assert_eq!(call.label_at(&me, &names, 0), "Calling Bob (dialing)");
    call.add_event(CallPartyEvent::new("bob".to_string(), CallPartyStatus::Ringing));
    assert_eq!(call.label_at(&me, &names, 0), "Calling Bob (ringing)");
    call.add_event(CallPartyEvent::new("bob".to_string(), CallPartyStatus::Active));
    assert_eq!(call.label_at(&me, &names, 65), "Call Bob - 01:05");
    assert_eq!(call.label_at(&me, &names, 3725), "Call Bob - 62:05");
    let label = call.get_call_label(&me, &names);
    assert!(label.starts_with("Call Bob - "));
    call.add_event(CallPartyEvent::new("me".to_string(), CallPartyStatus::HungUp));
    assert_eq!(call.label_at(&me, &names, 9), "Call ended with: Bob");
    let bob = Contact::new("bob".to_string());
    let mut incoming = Call::new("bob".to_string(), vec![Contact::new("me".to_string()), Contact::new("carol".to_string())]);
    let names = vec!["Me".to_string(), "Carol".to_string(), "Bob".to_string()];
    incoming.add_event(CallPartyEvent::new("carol".to_string(), CallPartyStatus::Active));
    let me_names = names.clone();
    assert_eq!(incoming.label_at(&me, &me_names, 0), "Incoming call from Carol, Bob");
    assert_eq!(incoming.label_at(&bob, &names, 0), "Call Me (dialing), Carol - 00:00");
    let stranger = Contact::new("stranger".to_string());
    assert_eq!(incoming.label_at(&stranger, &names, 0), "Call ended with: Me (dialing), Carol, Bob");
}

#[test]
fn received_audio_goes_to_the_senders_channel_at_48k() {
    let call = Call::new("me".to_string(), vec![Contact::new("bob".to_string())]);
    let chunk = AudioChunk::ULaw { id: "x".to_string(), chunk_offset: 0, sample_rate: 24000, samples: vec![0x7F, 0x4E] };
    let (channel, samples) = call.receive_audio(&chunk, "bob").unwrap();
    assert_eq!(channel, 1);
    assert_eq!(samples, vec![0, 0, 988, 988]);
    let chunk48 = AudioChunk::ULaw { id: "x".to_string(), chunk_offset: 0, sample_rate: 48000, samples: vec![0xCE] };
    let (channel, samples) = call.receive_audio(&chunk48, "me").unwrap();
    assert_eq!(channel, 2);
    assert_eq!(samples, vec![-988]);
    assert!(call.receive_audio(&chunk48, "mallory").is_none());
}

#[test]
fn state_is_resent_once_a_second() {
    let mut call = Call::new("me".to_string(), vec![]);
    assert!(call.take_state_resend(10_000));
    assert!(!call.take_state_resend(10_500));
    assert!(!call.take_state_resend(10_999));
    assert!(call.take_state_resend(11_000));
    assert!(!call.take_state_resend(5_000));
}

#[test]
fn tone_chunks_follow_the_clock() {
    let mut call = Call::new("me".to_string(), vec![]);
    let start = call.call_started;
    // 80 ms ahead at 48 kHz is 3840 samples: the next whole 960-sample frame is 4800.
    assert!(call.take_tone_chunk(start));
    assert!(call.take_tone_chunk(start));
    assert!(call.take_tone_chunk(start));
    assert!(!call.take_tone_chunk(start));
    // 20 ms later: (100 * 48) / 960 + 1 = 6 frames, 5760 samples, still under 6144.
    assert!(!call.take_tone_chunk(start + 20));
    // 40 ms later: 7 frames, 6720 samples.
    assert!(call.take_tone_chunk(start + 40));
}

#[test]
fn audio_allowance_and_sent_counter() {
    let mut call = Call::new("me".to_string(), vec![]);
    assert_eq!(call.audio_allowance(1_000), 8192);
    call.note_audio_sent(8000);
    assert_eq!(call.audio_allowance(1_000), 192);
    assert_eq!(call.audio_allowance(1_010), 192 + 480);
    call.note_audio_sent(10_000);
    assert_eq!(call.audio_allowance(1_010), 0);
    call.reset_audio();
    assert_eq!(call.audio_allowance(2_000), 8192);
}

#[test]
fn audio_goes_to_active_peers() {
    let mut call = Call::new("me".to_string(), vec![Contact::new("bob".to_string()), Contact::new("carol".to_string())]);
    assert!(call.audio_peer_keys("me").is_empty());
    assert_eq!(call.dialing_key(), "bob");
    call.add_event(CallPartyEvent::new("carol".to_string(), CallPartyStatus::Active));
    assert_eq!(call.audio_peer_keys("me"), vec!["carol"]);
    assert!(call.audio_should_play());
}

#[test]
fn chunks_are_ulaw_at_48k() {
    let call = Call::new("me".to_string(), vec![]);
    let chunk = call.encode_chunk(&[0, 1000, -1000]);
    assert_eq!(chunk.sample_rate(), 48000);
    assert_eq!(chunk.samples(), &[0x7F, 0x4E, 0xCE]);
    assert_eq!(chunk.id(), call.id());
    assert_eq!(encode_samples(&[32767, -32768]), vec![0x00, 0x80]);
}

#[test]
fn events_sort_stably_by_id() {
    let events = vec![
        CallPartyEvent::with_id(3, "a".to_string(), CallPartyStatus::Active),
        CallPartyEvent::with_id(1, "b".to_string(), CallPartyStatus::Active),
        CallPartyEvent::with_id(3, "c".to_string(), CallPartyStatus::Active),
        CallPartyEvent::with_id(2, "d".to_string(), CallPartyStatus::Active),
    ];
    let sorted: Vec<String> = sort_events(events).into_iter().map(|e| e.key).collect();
    assert_eq!(sorted, vec!["b", "d", "a", "c"]);
}

#[test]
fn calls_are_kept_while_someone_else_is_in_them() {
    let mut call = Call::new("me".to_string(), vec![Contact::new("bob".to_string())]);
    assert!(call.retain_at("me", 1_000));
    assert_eq!(call.call_ended, None);
    call.add_event(CallPartyEvent::new("bob".to_string(), CallPartyStatus::HungUp));
    assert!(!call.retain_at("me", 1_000));
    let mut alone = Call::new("me".to_string(), vec![]);
    assert!(alone.retain_at("me", 1_000));
    assert_eq!(alone.call_ended, Some(1_000));
    assert!(alone.retain_at("me", 5_999));
    assert!(!alone.retain_at("me", 6_000));
    assert!(!alone.retain_at("stranger", 1_000));
}

#[test]
fn calls_converge_whatever_the_order_events_arrive_in() {
    let evs = || {
        vec![
            CallPartyEvent::with_id(10, "a".to_string(), CallPartyStatus::Active),
            CallPartyEvent::with_id(11, "b".to_string(), CallPartyStatus::Invited),
            CallPartyEvent::with_id(12, "b".to_string(), CallPartyStatus::Ringing),
            CallPartyEvent::with_id(13, "c".to_string(), CallPartyStatus::Invited),
            CallPartyEvent::with_id(14, "b".to_string(), CallPartyStatus::Active),
            CallPartyEvent::with_id(15, "c".to_string(), CallPartyStatus::HungUp),
        ]
    };
    let known = vec![];
    let mut reversed = evs();
    reversed.reverse();
    let x = Call::from_events("c".to_string(), evs(), &known);
    let mut y = Call::from_events("c".to_string(), reversed[..3].iter().map(|e| e.duplicate()).collect(), &known);
    y.merge_events(reversed[3..].iter().map(|e| e.duplicate()).collect(), &known);
    let ids = |c: &Call| c.events().iter().map(|e| e.id).collect::<Vec<_>>();
    assert_eq!(ids(&x), ids(&y));
    for key in ["a", "b", "c"] {
        assert_eq!(x.get_status(key), y.get_status(key));
    }
    assert_eq!(x.get_status("b"), Some(CallPartyStatus::Active));
    assert_eq!(x.get_status("c"), Some(CallPartyStatus::HungUp));
}

#[test]
fn dtmf_tone_pairs() {
    assert_eq!(hoshi::call::dtmf_freqs('1'), Some((697, 1209)));
    assert_eq!(hoshi::call::dtmf_freqs('0'), Some((941, 1336)));
    assert_eq!(hoshi::call::dtmf_freqs('d'), Some((941, 1633)));
    assert_eq!(hoshi::call::dtmf_freqs('E'), hoshi::call::dtmf_freqs('*'));
    assert_eq!(hoshi::call::dtmf_freqs('f'), Some((941, 1477)));
    assert_eq!(hoshi::call::dtmf_freqs('x'), None);
}

#[test]
fn step_plan_rings_while_ringing() {
    let events = vec![
        CallPartyEvent::with_id(1, "bob".to_string(), CallPartyStatus::Active),
        CallPartyEvent::with_id(2, "me".to_string(), CallPartyStatus::Ringing),
    ];
    let mut call = Call::from_events("c".to_string(), events, &vec![]);
    call.call_started = 1_000;
    let plan = call.step_plan("me", 1_000, false);
    assert!(plan.send_state);
    assert!(!plan.recreate_audio);
    assert!(plan.play);
    assert_eq!(plan.audio, CallAudio::RingTone { chunk_due: true });
    let again = call.step_plan("me", 1_500, true);
    assert!(!again.send_state);
    assert!(again.recreate_audio);
    assert_eq!(call.step_plan("me", 2_000, false).send_state, true);
}

#[test]
fn step_plan_dials_while_no_other_party_is_active() {
    let mut call = Call::new("me".to_string(), vec![Contact::new("bob".to_string())]);
    let start = call.call_started;
    let plan = call.step_plan("me", start, false);
    assert_eq!(plan.audio, CallAudio::DialTone { key: "bob".to_string(), chunk_due: true });
}

#[test]
fn step_plan_sends_audio_to_active_peers() {
    let events = vec![
        CallPartyEvent::with_id(1, "bob".to_string(), CallPartyStatus::Active),
        CallPartyEvent::with_id(2, "me".to_string(), CallPartyStatus::Active),
        CallPartyEvent::with_id(3, "eve".to_string(), CallPartyStatus::Ringing),
    ];
    let mut call = Call::from_events("c".to_string(), events, &vec![]);
    let plan = call.step_plan("me", 10_000, false);
    assert_eq!(plan.audio, CallAudio::SendAudio { peers: vec!["bob".to_string()], allowance: 8192 });
    call.note_audio_sent(8000);
    let later = call.step_plan("me", 10_100, false);
    assert_eq!(later.audio, CallAudio::SendAudio { peers: vec!["bob".to_string()], allowance: 100 * 48 + 192 });
    let reset = call.step_plan("me", 10_200, true);
    assert_eq!(reset.audio, CallAudio::SendAudio { peers: vec!["bob".to_string()], allowance: 8192 });
}

#[test]
fn step_plan_does_nothing_for_a_hung_up_party() {
    let events = vec![CallPartyEvent::with_id(1, "me".to_string(), CallPartyStatus::HungUp)];
    let mut call = Call::from_events("c".to_string(), events, &vec![]);
    assert!(!call.step_plan("me", 0, false).play);
    assert_eq!(call.step_plan("me", 0, false).audio, CallAudio::Nothing);
}
