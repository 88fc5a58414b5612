use std::collections::HashMap;

use hoshi::record::{HoshiPayload, HoshiRecord};
use hoshi::store::{HeadCommand, StoreHead};

fn dummy(text: &str) -> HoshiRecord {
    HoshiRecord::new(String::new(), HoshiPayload::Text { content: text.to_string() })
}

fn text_of(r: &HoshiRecord) -> String {
    match &r.payload {
        HoshiPayload::Text { content } => content.clone(),
        _ => String::new(),
    }
}

fn concat_all(a: &StoreHead<HoshiRecord>) -> String {
    a.get_all().iter().map(text_of).collect::<Vec<_>>().join("")
}

/// Runs the watcher callback of `watcher` when the head reports it due: the callback
/// stores the concatenated texts in `acc`.
fn fire(head: &mut StoreHead<HoshiRecord>, watcher: Option<u128>, acc: &mut String) {
    let due = head.take_due();
    if let Some(id) = watcher {
        if due.contains(&id) {
            *acc = concat_all(head);
        }
    }
}

fn sync_stores(
    a: &mut StoreHead<HoshiRecord>,
    b: &mut StoreHead<HoshiRecord>,
    max_rounds: i32,
) -> (usize, usize) {
    a.remote_add("b".to_string(), None);
    b.remote_add("a".to_string(), None);
    let mut inbox_a: Vec<HeadCommand<HoshiRecord>> = vec![];
    let mut inbox_b: Vec<HeadCommand<HoshiRecord>> = vec![];
    let mut messages = 0;
    let mut rounds = 0;
    for _i in 0..max_rounds {
        rounds += 1;
        for msg in inbox_a.drain(0..) {
            a.rx("b", msg);
        }
        for msg in inbox_b.drain(0..) {
            b.rx("a", msg);
        }

        let mut messages_queued = inbox_a.len() + inbox_b.len();
        for (dest, msg) in a.tx() {
            assert_eq!(dest, "b");
            messages_queued += 1;
            inbox_b.push(msg);
        }
        for (dest, msg) in b.tx() {
            assert_eq!(dest, "a");
            messages_queued += 1;
            inbox_a.push(msg);
        }
        if messages_queued == 0 {
            break;
        } else {
            messages += messages_queued;
        }
    }
    (rounds, messages)
}

fn sync_many_direct(
    stores: &mut HashMap<String, StoreHead<HoshiRecord>>,
    max_rounds: i32,
) -> (usize, usize) {
    let mut inbox: HashMap<String, Vec<(String, HeadCommand<HoshiRecord>)>> = HashMap::new();
    for name in stores.keys() {
        inbox.insert(name.to_string(), vec![]);
    }
    for (key, store) in stores.iter_mut() {
        for cur_key in inbox.keys() {
            if cur_key != key {
                store.remote_add(cur_key.to_string(), None);
            }
        }
    }

    let mut messages = 0;
    let mut rounds = 0;
    for _i in 0..max_rounds {
        rounds += 1;

        for (key, store) in stores.iter_mut() {
            let inbox = inbox.get_mut(key).unwrap();
            for (from, msg) in inbox.drain(0..) {
                store.rx(&from, msg);
            }
        }

        let mut messages_queued = 0;
        for (key, store) in stores.iter_mut() {
            for (dest, msg) in store.tx() {
                assert_ne!(key, &dest);
                messages_queued += 1;
                let inbox = inbox.get_mut(&dest).unwrap();
                inbox.push((key.to_string(), msg));
            }
        }

        if messages_queued == 0 {
            break;
        } else {
            messages += messages_queued;
        }
    }
    (rounds, messages)
}

#[test]
fn basic_head_tests() {
    let mut head_a = StoreHead::<HoshiRecord>::new("a".to_string());
    let mut head_a2 = StoreHead::<HoshiRecord>::new("a".to_string());
    let mut head_b = StoreHead::<HoshiRecord>::new("b".to_string());
    let msg_1 = dummy("1");
    let msg_2 = dummy("2");
    let msg_3 = dummy("3");

    assert_eq!(head_a.len(), 0);
    assert_eq!(head_a2.len(), 0);
    assert_eq!(head_b.len(), 0);
    assert_eq!(head_a.hash_tip(), head_a2.hash_tip());
    assert_ne!(head_a.hash_tip(), head_b.hash_tip());

    head_a.insert(msg_2.clone());
    assert_eq!(head_a.len(), 1);
    assert_ne!(head_a.hash_tip(), head_a2.hash_tip());
    head_a2.insert(msg_2.clone());
    assert_eq!(head_a.hash_tip(), head_a2.hash_tip());
    head_a.insert(msg_2.clone());
    assert_eq!(head_a.hash_tip(), head_a2.hash_tip());
    assert_eq!(head_a.len(), 1);

    head_b.insert(msg_2.clone());
    assert_ne!(head_a.hash_tip(), head_b.hash_tip());

    head_a.insert(msg_3.clone());
    assert_eq!(head_a.len(), 2);
    assert_ne!(head_a.hash_tip(), head_a2.hash_tip());
    head_a2.insert(msg_3.clone());
    assert_eq!(head_a.hash_tip(), head_a2.hash_tip());

    let old_hash_a = head_a.hash(msg_2.id).unwrap();
    head_a.insert(msg_1.clone());
    let new_hash_a = head_a.hash(msg_2.id).unwrap();
    assert_ne!(old_hash_a, new_hash_a);
}

#[test]
fn head_insertion_order_mustnt_matter() {
    let mut head_a = StoreHead::<HoshiRecord>::new("a".to_string());
    let mut head_a2 = StoreHead::<HoshiRecord>::new("a".to_string());
    let msg_1 = dummy("1");
    let msg_2 = dummy("2");
    let msg_3 = dummy("3");

    head_a.insert(msg_1.clone());
    head_a2.insert(msg_3.clone());
    assert_ne!(head_a.hash_tip(), head_a2.hash_tip());

    head_a.insert(msg_2.clone());
    head_a2.insert(msg_2.clone());
    assert_ne!(head_a.hash_tip(), head_a2.hash_tip());

    head_a.insert(msg_3.clone());
    head_a2.insert(msg_1.clone());
    assert_eq!(head_a.hash_tip(), head_a2.hash_tip());

    head_a.insert(dummy("4"));
    head_a2.insert(dummy("4"));
    assert_ne!(head_a.hash_tip(), head_a2.hash_tip());
}

/// The records a head keeps, as the application saves them.
fn saved(head: &StoreHead<HoshiRecord>) -> Vec<HoshiRecord> {
    head.get_all().clone()
}

#[test]
fn head_persistence() {
    let mut head = StoreHead::<HoshiRecord>::new("a".to_string());
    let hash = head.hash_tip();
    assert_eq!(head.len(), 0);

    let mut head = StoreHead::<HoshiRecord>::load("a".to_string(), saved(&head));
    assert_eq!(hash, head.hash_tip());

    head.insert(dummy("1"));
    let hash = head.hash_tip();
    let kept = saved(&head);
    drop(head);
    let mut head = StoreHead::<HoshiRecord>::load("a".to_string(), kept);
    assert_eq!(head.len(), 1);
    assert_eq!(hash, head.hash_tip());

    for i in 2..101 {
        head.insert(dummy(&format!("{i}")));
    }
    let hash = head.hash_tip();
    let kept = saved(&head);
    drop(head);
    let mut head = StoreHead::<HoshiRecord>::load("a".to_string(), kept);
    assert_eq!(head.len(), 100);
    assert_eq!(hash, head.hash_tip());
}

#[test]
fn basic_sync() {
    let mut a = StoreHead::<HoshiRecord>::new("t".to_string());
    let mut b = StoreHead::<HoshiRecord>::new("t".to_string());

    a.insert(dummy("0"));
    assert_ne!(a.hash_tip(), b.hash_tip());

    let (rounds, messages) = sync_stores(&mut a, &mut b, 16);
    println!("Rounds: {}, Messages: {}", rounds, messages);
    assert!(rounds < 8);
    assert!(messages < 16);
    assert_eq!(a.hash_tip(), b.hash_tip());

    for i in 1..8 {
        a.insert(dummy(&format!("{i}")));
    }
    assert_ne!(a.hash_tip(), b.hash_tip());
    let (rounds, messages) = sync_stores(&mut a, &mut b, 16);
    println!("Rounds: {}, Messages: {}", rounds, messages);
    assert!(rounds < 8);
    assert!(messages < 16);
    assert_eq!(a.hash_tip(), b.hash_tip());
    assert_eq!(a.len(), 8);
    assert_eq!(a.len(), b.len());

    for i in 8..16 {
        b.insert(dummy(&format!("{i}")));
    }
    let (rounds, messages) = sync_stores(&mut a, &mut b, 16);
    println!("Rounds: {}, Messages: {}", rounds, messages);
    assert!(rounds < 8);
    assert!(messages < 24);
    assert_eq!(a.hash_tip(), b.hash_tip());
    assert_eq!(a.len(), 16);
    assert_eq!(a.len(), b.len());

    for i in 16..32 {
        a.insert(dummy(&format!("{i}")));
    }
    let (rounds, messages) = sync_stores(&mut a, &mut b, 16);
    println!("Rounds: {}, Messages: {}", rounds, messages);
    assert!(rounds < 8);
    assert!(messages < 24);
    assert_eq!(a.hash_tip(), b.hash_tip());
    assert_eq!(a.len(), 32);
    assert_eq!(a.len(), b.len());

    for i in 32..256 {
        a.insert(dummy(&format!("{i}")));
    }
    let (rounds, messages) = sync_stores(&mut a, &mut b, 128);
    println!("Rounds: {}, Messages: {}", rounds, messages);
    assert!(rounds < 96);
    assert!(messages < 512);
    assert_eq!(a.hash_tip(), b.hash_tip());
    assert_eq!(a.len(), 256);
    assert_eq!(a.len(), b.len());

    a.remote_drop("b");
    a.remote_add("b".to_string(), None);
    b.remote_drop("a");
    b.remote_add("a".to_string(), None);
    let (rounds, messages) = sync_stores(&mut a, &mut b, 128);
    println!("Rounds: {}, Messages: {}", rounds, messages);
    assert!(rounds < 4);
    assert!(messages < 32);
    assert_eq!(a.hash_tip(), b.hash_tip());
    assert_eq!(a.len(), 256);
    assert_eq!(a.len(), b.len());
}

#[test]
fn complicated_sync() {
    let mut a = StoreHead::<HoshiRecord>::new("t".to_string());
    let mut b = StoreHead::<HoshiRecord>::new("t".to_string());

    a.insert(dummy("0"));
    assert_ne!(a.hash_tip(), b.hash_tip());
    let (rounds, messages) = sync_stores(&mut a, &mut b, 2);
    println!("Rounds: {}, Messages: {}", rounds, messages);
    assert!(messages < 4);
    assert_eq!(a.hash_tip(), b.hash_tip());

    let mut full_message: Vec<String> = vec!["0".to_string()];
    for i in 1..16 {
        let text = format!("{i}");
        full_message.push(text.clone());
        a.insert(dummy(&text));
    }
    for i in 16..32 {
        let text = format!("{i}");
        full_message.push(text.clone());
        b.insert(dummy(&text));
    }
    assert_ne!(a.hash_tip(), b.hash_tip());
    let (rounds, messages) = sync_stores(&mut a, &mut b, 32);
    println!("Rounds: {}, Messages: {}", rounds, messages);
    assert!(rounds < 24);
    assert!(messages < 1024);
    assert_eq!(a.hash_tip(), b.hash_tip());
    assert_eq!(a.len(), 32);
    assert_eq!(a.len(), b.len());
    assert_eq!(full_message.join(""), concat_all(&a));

    for i in 32..128 {
        let text = format!("{i}");
        full_message.push(text.clone());
        let msg = dummy(&text);
        match i & 3 {
            0 => a.insert(msg.clone()),
            1 => b.insert(msg.clone()),
            2 => a.insert(msg.clone()),
            _ => {
                a.insert(msg.clone());
                b.insert(msg.clone())
            }
        };
    }
    assert_ne!(a.hash_tip(), b.hash_tip());
    let (rounds, messages) = sync_stores(&mut a, &mut b, 128);
    println!("Rounds: {}, Messages: {}", rounds, messages);
    assert!(messages < 4096);
    assert_eq!(a.len(), 128);
    assert_eq!(a.hash_tip(), b.hash_tip());
    assert_eq!(a.len(), b.len());
    assert_eq!(full_message.join(""), concat_all(&a));
}

fn four_stores() -> HashMap<String, StoreHead<HoshiRecord>> {
    let mut stores = HashMap::<String, StoreHead<HoshiRecord>>::new();
    for name in ["a", "b", "c", "d"] {
        stores.insert(name.to_string(), StoreHead::<HoshiRecord>::new("t".to_string()));
    }
    stores
}

#[test]
fn complicated_sync_many() {
    let mut stores = four_stores();

    stores.get_mut("a").unwrap().insert(dummy("0"));
    stores.get_mut("b").unwrap().insert(dummy("1"));
    stores.get_mut("c").unwrap().insert(dummy("2"));
    stores.get_mut("d").unwrap().insert(dummy("3"));
    assert_eq!(stores.get("a").unwrap().len(), 1);
    assert_eq!(stores.get("b").unwrap().len(), 1);
    assert_eq!(stores.get("c").unwrap().len(), 1);
    assert_eq!(stores.get("d").unwrap().len(), 1);
    let ha = stores.get_mut("a").unwrap().hash_tip();
    let hb = stores.get_mut("b").unwrap().hash_tip();
    let hc = stores.get_mut("c").unwrap().hash_tip();
    let hd = stores.get_mut("d").unwrap().hash_tip();
    assert_ne!(ha, hb);
    assert_ne!(hb, hc);
    assert_ne!(hc, hd);
    let (rounds, messages) = sync_many_direct(&mut stores, 4);
    println!("Rounds: {}, Messages: {}", rounds, messages);
    assert!(messages < 256);
    let ha = stores.get_mut("a").unwrap().hash_tip();
    let hb = stores.get_mut("b").unwrap().hash_tip();
    let hc = stores.get_mut("c").unwrap().hash_tip();
    let hd = stores.get_mut("d").unwrap().hash_tip();
    assert_eq!(ha, hb);
    assert_eq!(hb, hc);
    assert_eq!(hc, hd);
    assert_eq!(stores.get("a").unwrap().len(), 4);

    stores.get_mut("a").unwrap().insert(dummy("4"));
    let (rounds, messages) = sync_many_direct(&mut stores, 4);
    println!("Rounds: {}, Messages: {}", rounds, messages);
    assert!(messages < 32);
    assert_eq!(concat_all(stores.get("a").unwrap()), "01234");
}

#[test]
fn complicated_sync_many_many() {
    let mut stores = HashMap::<String, StoreHead<HoshiRecord>>::new();
    for c in 'a'..='z' {
        stores.insert(c.to_string(), StoreHead::<HoshiRecord>::new("t".to_string()));
    }

    for i in 0..12 {
        stores.get_mut("a").unwrap().insert(dummy(&i.to_string()));
    }
    for i in 12..24 {
        let c = char::from_u32(('b' as u32) + (i - 12)).unwrap().to_string();
        stores.get_mut(&c).unwrap().insert(dummy(&i.to_string()));
    }

    assert_eq!(stores.get("a").unwrap().len(), 12);
    assert_eq!(stores.get("b").unwrap().len(), 1);
    assert_eq!(stores.get("z").unwrap().len(), 0);
    let ha = stores.get_mut("a").unwrap().hash_tip();
    let hb = stores.get_mut("b").unwrap().hash_tip();
    let hc = stores.get_mut("c").unwrap().hash_tip();
    let hd = stores.get_mut("d").unwrap().hash_tip();
    let hz = stores.get_mut("z").unwrap().hash_tip();
    assert_ne!(ha, hb);
    assert_ne!(hb, hc);
    assert_ne!(hb, hd);
    assert_ne!(hb, hz);
    let (rounds, messages) = sync_many_direct(&mut stores, 32);
    println!("Rounds: {}, Messages: {}", rounds, messages);
    assert!(messages < 256 * 256);
    let ha = stores.get_mut("a").unwrap().hash_tip();
    let hb = stores.get_mut("b").unwrap().hash_tip();
    let hc = stores.get_mut("c").unwrap().hash_tip();
    let hd = stores.get_mut("d").unwrap().hash_tip();
    let hz = stores.get_mut("z").unwrap().hash_tip();
    assert_eq!(ha, hb);
    assert_eq!(hb, hc);
    assert_eq!(hc, hd);
    assert_eq!(hd, hz);
    assert_eq!(stores.get("z").unwrap().len(), 24);
}

#[test]
fn watcher_tests() {
    let mut a = StoreHead::<HoshiRecord>::new("t".to_string());
    let mut b = StoreHead::<HoshiRecord>::new("t".to_string());

    let mut acc = String::new();
    let watcher = a.watcher_add();
    fire(&mut a, Some(watcher), &mut acc);
    assert_eq!(a.watcher_len(), 1);
    assert_eq!(acc, "");

    a.insert(dummy("0"));
    fire(&mut a, Some(watcher), &mut acc);
    b.insert(dummy("1"));
    b.insert(dummy("2"));
    b.insert(dummy("a"));
    assert_ne!(a.hash_tip(), b.hash_tip());
    assert_eq!(a.watcher_len(), 1);
    assert_eq!(acc, "0");

    let (rounds, messages) = sync_stores(&mut a, &mut b, 16);
    fire(&mut a, Some(watcher), &mut acc);
    println!("Rounds: {}, Messages: {}", rounds, messages);
    assert!(rounds < 8);
    assert!(messages < 32);
    assert_eq!(a.hash_tip(), b.hash_tip());
    assert_eq!(a.watcher_len(), 1);
    assert_eq!(acc, "012a");

    a.watcher_remove(watcher);
    a.insert(dummy("b"));
    fire(&mut a, None, &mut acc);
    assert_eq!(a.watcher_len(), 0);
    assert_eq!(acc, "012a");

    let watcher = a.watcher_add();
    fire(&mut a, Some(watcher), &mut acc);
    assert_eq!(a.watcher_len(), 1);
    assert_eq!(acc, "012ab");
}

#[test]
fn exchanging_every_record_converges() {
    let mut a = StoreHead::<HoshiRecord>::new("x".to_string());
    let mut b = StoreHead::<HoshiRecord>::new("x".to_string());
    let shared = dummy("shared");
    a.insert(shared.clone());
    b.insert(shared);
    a.insert(dummy("only a"));
    b.insert(dummy("only b 1"));
    b.insert(dummy("only b 2"));
    let from_a: Vec<HoshiRecord> = a.get_all().iter().rev().cloned().collect();
    let from_b: Vec<HoshiRecord> = b.get_all().to_vec();
    for r in from_b.iter().chain(from_b.iter()) {
        a.rx("b", HeadCommand::Put(r.clone()));
    }
    for r in from_a {
        b.rx("a", HeadCommand::Put(r));
    }
    assert_eq!(a.len(), 4);
    assert_eq!(concat_all(&a), concat_all(&b));
    assert_eq!(a.hash_tip(), b.hash_tip());
}

#[test]
fn a_peer_at_an_earlier_tip_gets_the_records_after_it() {
    let mut a = StoreHead::<HoshiRecord>::new("t".to_string());
    let m1 = HoshiRecord::with_id(1, String::new(), HoshiPayload::Text { content: "1".to_string() });
    let m2 = HoshiRecord::with_id(2, String::new(), HoshiPayload::Text { content: "2".to_string() });
    let m3 = HoshiRecord::with_id(3, String::new(), HoshiPayload::Text { content: "3".to_string() });
    assert!(a.insert(m1));
    assert!(a.insert(m2));
    assert!(a.insert(m3));
    a.remote_add("b".to_string(), None);
    let at_m1 = a.hash(1).unwrap();
    a.rx("b", HeadCommand::Tip(at_m1));
    let tip = a.hash_tip();
    let out = a.tx();
    assert_eq!(out.len(), 3);
    assert_eq!(out[0].0, "b");
    assert!(matches!(&out[0].1, HeadCommand::Put(r) if r.id == 2));
    assert!(matches!(&out[1].1, HeadCommand::Put(r) if r.id == 3));
    assert!(matches!(&out[2].1, HeadCommand::Tip(t) if *t == tip));
    assert_eq!(a.len(), 3);
}
