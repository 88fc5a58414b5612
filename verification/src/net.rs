//! Messages between clients, and the client's queue of relays and outgoing messages.
//!
//! The connections themselves (one WebSocket pipe per relay, each on its own thread) are
//! run by the application; this module decides which relays need a pipe and what is sent.
use vstd::prelude::*;
use crate::audio_chunk::AudioChunk;
use crate::call::{CallPartyEvent, CallPartyStatus};
use crate::chat::ChatMessage;
use crate::record::HoshiRecord;
use crate::relay::RelayInfo;
use crate::store::HeadCommand;

verus! {

/// What the relay is handed: the recipient's key and the serialized message. The relay
/// reads nothing else.
#[derive(Clone, Debug)]
pub struct HoshiEnvelope {
    pub recipient: String,
    pub payload: Vec<u8>,
}

/// A message between two clients: sender, recipient and what it says.
#[derive(Debug)]
pub struct HoshiMessage {
    pub from_key: String,
    pub to_key: String,
    pub payload: HoshiPayload,
}

/// What a message between clients says.
#[derive(Debug)]
pub enum HoshiPayload {
    Ping,
    Pong,
    RequestChatMessages,
    ChatMessage(ChatMessage),
    InviteToCall { from_key: String, id: String },
    UpdateCallStatus { id: String, status: CallPartyStatus },
    UpdateCallState { call_id: String, events: Vec<CallPartyEvent> },
    AudioChunk { call_id: String, chunk: AudioChunk },
    StoreSync { head_name: String, command: HeadCommand<HoshiRecord> },
}

impl HoshiMessage {
    /// A message from `from_key` to `to_key`.
    pub fn new(from_key: String, to_key: String, payload: HoshiPayload) -> (r: Self)
        ensures
            r == (HoshiMessage { from_key, to_key, payload }),
    {
        HoshiMessage { from_key, to_key, payload }
    }
}

/// The URLs of the relays.
pub open spec fn relay_urls(relays: Seq<RelayInfo>) -> Seq<Seq<char>> {
    relays.map_values(|r: RelayInfo| r.url@)
}

/// The relays of `relays` that get a new pipe, given the URLs already connected: each URL
/// once, unless it is connected already. Returns the connected URLs after, and the new
/// ones in order.
pub open spec fn new_pipes(connected: Seq<Seq<char>>, relays: Seq<Seq<char>>) -> (Seq<Seq<char>>, Seq<Seq<char>>)
    decreases relays.len(),
{
    if relays.len() == 0 {
        (connected, Seq::empty())
    } else {
        let (c, out) = new_pipes(connected, relays.drop_last());
        if c.contains(relays.last()) {
            (c, out)
        } else {
            (c.push(relays.last()), out.push(relays.last()))
        }
    }
}

/// True when no URL occurs twice.
pub open spec fn no_duplicate_urls(urls: Seq<Seq<char>>) -> bool {
    forall|i: int, j: int| 0 <= i < j < urls.len() ==> urls[i] != urls[j]
}

/// After the relays that need a pipe get one, every relay of the list has a pipe, a
/// relay that had one gets no second, and no URL has two pipes.
pub proof fn law_each_relay_gets_one_pipe(connected: Seq<Seq<char>>, relays: Seq<Seq<char>>)
    requires
        no_duplicate_urls(connected),
    ensures
        forall|i: int| 0 <= i < relays.len() ==> new_pipes(connected, relays).0.contains(#[trigger] relays[i]),
        no_duplicate_urls(new_pipes(connected, relays).0),
        forall|i: int| 0 <= i < new_pipes(connected, relays).1.len() ==> !connected.contains(#[trigger] new_pipes(connected, relays).1[i]),
        new_pipes(connected, relays).0 == connected + new_pipes(connected, relays).1,
    decreases relays.len(),
{
    if relays.len() > 0 {
        let d = relays.drop_last();
        law_each_relay_gets_one_pipe(connected, d);
        let (c, out) = new_pipes(connected, d);
        let u = relays.last();
        if !c.contains(u) {
            assert forall|i: int, j: int| 0 <= i < j < c.push(u).len() implies c.push(u)[i] != c.push(u)[j] by {
                if j == c.len() {
                    assert(c[i] == c.push(u)[i]);
                }
            }
            assert(c.push(u) =~= connected + out.push(u));
            assert forall|i: int| 0 <= i < out.push(u).len() implies !connected.contains(#[trigger] out.push(u)[i]) by {
                if i == out.len() {
                    if connected.contains(u) {
                        let k = choose|k: int| 0 <= k < connected.len() && connected[k] == u;
                        assert(c[k] == u);
                    }
                }
            }
        }
        assert forall|i: int| 0 <= i < relays.len() implies new_pipes(connected, relays).0.contains(#[trigger] relays[i]) by {
            let r = new_pipes(connected, relays).0;
            if i < d.len() {
                assert(d[i] == relays[i]);
                assert(c.contains(d[i]));
                let k = choose|k: int| 0 <= k < c.len() && c[k] == d[i];
                assert(r[k] == c[k]);
            } else if !c.contains(u) {
                assert(r[c.len() as int] == u);
            }
        }
    }
}

/// The client's side of the relay network: the relays it should be connected to, the
/// relays it has a pipe to, the messages waiting to go out, and its own key.
#[derive(Debug)]
pub struct HoshiNetClient {
    relay_list: Vec<RelayInfo>,
    connected: Vec<String>,
    outbox: Vec<HoshiMessage>,
    public_key: String,
}

impl HoshiNetClient {
    /// The relays the client should be connected to.
    pub closed spec fn spec_relays(&self) -> Seq<Seq<char>> {
        relay_urls(self.relay_list@)
    }

    /// The URLs of the relays the client has a pipe to.
    pub closed spec fn spec_connected(&self) -> Seq<Seq<char>> {
        self.connected@.map_values(|u: String| u@)
    }

    /// The messages waiting to go out, oldest first.
    pub closed spec fn spec_outbox(&self) -> Seq<HoshiMessage> {
        self.outbox@
    }

    /// The client's own key.
    pub closed spec fn spec_public_key(&self) -> Seq<char> {
        self.public_key@
    }

    /// A client with no relays, no pipes, nothing to send and an empty key.
    pub fn new() -> (r: Self)
        ensures
            r.spec_relays() == Seq::<Seq<char>>::empty(),
            r.spec_connected() == Seq::<Seq<char>>::empty(),
            r.spec_outbox() == Seq::<HoshiMessage>::empty(),
            r.spec_public_key() == Seq::<char>::empty(),
    {
        let r = HoshiNetClient { relay_list: Vec::new(), connected: Vec::new(), outbox: Vec::new(), public_key: String::new() };
        assert(r.spec_relays() =~= Seq::<Seq<char>>::empty());
        assert(r.spec_connected() =~= Seq::<Seq<char>>::empty());
        r
    }

    /// Sets the client's own key.
    pub fn set_public_key(&mut self, key: String)
        ensures
            final(self).spec_public_key() == key@,
            final(self).spec_relays() == old(self).spec_relays(),
            final(self).spec_connected() == old(self).spec_connected(),
            final(self).spec_outbox() == old(self).spec_outbox(),
    {
        self.public_key = key;
    }

    /// The client's own key.
    pub fn public_key(&self) -> (r: &str)
        ensures
            r@ == self.spec_public_key(),
    {
        self.public_key.as_str()
    }

    /// Drops every pipe.
    pub fn disconnect_all(&mut self)
        ensures
            final(self).spec_connected() == Seq::<Seq<char>>::empty(),
            final(self).spec_relays() == old(self).spec_relays(),
            final(self).spec_outbox() == old(self).spec_outbox(),
            final(self).spec_public_key() == old(self).spec_public_key(),
    {
        self.connected = Vec::new();
        assert(self.spec_connected() =~= Seq::<Seq<char>>::empty());
    }

    /// Replaces the list of relays.
    pub fn update_relays(&mut self, new_relays: &Vec<RelayInfo>)
        ensures
            final(self).spec_relays() == relay_urls(new_relays@),
            final(self).spec_connected() == old(self).spec_connected(),
            final(self).spec_outbox() == old(self).spec_outbox(),
            final(self).spec_public_key() == old(self).spec_public_key(),
    {
        let mut list: Vec<RelayInfo> = Vec::new();
        let mut i: usize = 0;
        while i < new_relays.len()
            invariant
                i <= new_relays@.len(),
                list@ == new_relays@.subrange(0, i as int),
            decreases new_relays@.len() - i,
        {
            list.push(new_relays[i].duplicate());
            i += 1;
            assert(list@ =~= new_relays@.subrange(0, i as int));
        }
        assert(new_relays@.subrange(0, i as int) =~= new_relays@);
        self.relay_list = list;
    }

    /// Queues a message to go out through every pipe.
    pub fn send(&mut self, msg: HoshiMessage)
        ensures
            final(self).spec_outbox() == old(self).spec_outbox().push(msg),
            final(self).spec_relays() == old(self).spec_relays(),
            final(self).spec_connected() == old(self).spec_connected(),
            final(self).spec_public_key() == old(self).spec_public_key(),
    {
        self.outbox.push(msg);
    }

    /// The relays that need a pipe: those with no pipe yet, each URL once. They are
    /// counted as connected from now on.
    pub fn relays_to_connect(&mut self) -> (r: Vec<RelayInfo>)
        ensures
            final(self).spec_connected() == new_pipes(old(self).spec_connected(), old(self).spec_relays()).0,
            relay_urls(r@) == new_pipes(old(self).spec_connected(), old(self).spec_relays()).1,
            final(self).spec_relays() == old(self).spec_relays(),
            final(self).spec_outbox() == old(self).spec_outbox(),
            final(self).spec_public_key() == old(self).spec_public_key(),
    {
        let ghost relays = relay_urls(self.relay_list@);
        let ghost start = self.spec_connected();
        let mut out: Vec<RelayInfo> = Vec::new();
        let mut i: usize = 0;
        assert(relays.subrange(0, 0) =~= Seq::<Seq<char>>::empty());
        assert(relay_urls(out@) =~= Seq::<Seq<char>>::empty());
        while i < self.relay_list.len()
            invariant
                i <= self.relay_list@.len(),
                relays == relay_urls(self.relay_list@),
                self.spec_connected() == new_pipes(start, relays.subrange(0, i as int)).0,
                relay_urls(out@) == new_pipes(start, relays.subrange(0, i as int)).1,
                self.relay_list@ == old(self).relay_list@,
                self.outbox@ == old(self).outbox@,
                self.public_key@ == old(self).public_key@,
            decreases self.relay_list@.len() - i,
        {
            proof {
                assert(relays.subrange(0, i + 1).drop_last() =~= relays.subrange(0, i as int));
                assert(relays.subrange(0, i + 1).last() == self.relay_list@[i as int].url@);
            }
            let mut found = false;
            let mut k: usize = 0;
            while k < self.connected.len()
                invariant
                    k <= self.connected@.len(),
                    i < self.relay_list@.len(),
                    found == exists|m: int| 0 <= m < k && self.connected@[m]@ == self.relay_list@[i as int].url@,
                decreases self.connected@.len() - k,
            {
                if self.connected[k] == self.relay_list[i].url {
                    found = true;
                }
                k += 1;
            }
            proof {
                let c = self.spec_connected();
                let u = self.relay_list@[i as int].url@;
                if found {
                    let m = choose|m: int| 0 <= m < self.connected@.len() && self.connected@[m]@ == u;
                    assert(c[m] == u);
                } else {
                    assert forall|m: int| 0 <= m < c.len() implies c[m] != u by {
                        assert(c[m] == self.connected@[m]@);
                    }
                }
                assert(c.contains(u) == found);
            }
            if !found {
                let ghost before_c = self.connected@;
                let ghost before_o = out@;
                self.connected.push(self.relay_list[i].url.clone());
                out.push(self.relay_list[i].duplicate());
                assert(self.spec_connected() =~= before_c.map_values(|u: String| u@).push(self.relay_list@[i as int].url@));
                assert(relay_urls(out@) =~= relay_urls(before_o).push(self.relay_list@[i as int].url@));
            }
            i += 1;
        }
        assert(relays.subrange(0, i as int) =~= relays);
        out
    }

    /// Takes every queued message, oldest first, leaving the queue empty.
    pub fn take_outbox(&mut self) -> (r: Vec<HoshiMessage>)
        ensures
            r@ == old(self).spec_outbox(),
            final(self).spec_outbox() == Seq::<HoshiMessage>::empty(),
            final(self).spec_relays() == old(self).spec_relays(),
            final(self).spec_connected() == old(self).spec_connected(),
            final(self).spec_public_key() == old(self).spec_public_key(),
    {
        let mut out: Vec<HoshiMessage> = Vec::new();
        std::mem::swap(&mut out, &mut self.outbox);
        out
    }
}

} // verus!
