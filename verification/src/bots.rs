//! The audio streams of the echo and jukebox bots and of the desktop client: what each
//! does with the audio a call plays to it and where the audio it hands back comes from.
use vstd::prelude::*;
use crate::audio::{AudioStream, SinkMixer, SourceBuffer, after_playing, after_writing, capture_all, mixed_sample};
use crate::call::{Call, CallPartyStatus, status_of};
use crate::chat::{ChatMessage, last_message, not_after};
use vstd::string::StringSliceAdditionalSpecFns;

verus! {

/// How many samples a loopback channel keeps: about 170 ms at 48 kHz.
pub open spec fn loopback_cap() -> nat {
    8192
}

/// A stream that plays back, mixed, everything written to it: what the echo bot says in
/// a call is what it heard.
#[derive(Debug)]
pub struct Loopback {
    playing: bool,
    buffers: SinkMixer,
}

impl Loopback {
    /// True while the stream plays.
    pub closed spec fn spec_playing(&self) -> bool {
        self.playing
    }

    /// The buffered audio, by channel.
    pub closed spec fn spec_buffers(&self) -> Seq<(usize, Seq<i16>)> {
        self.buffers.spec_buffers()
    }

    /// How many samples a channel keeps.
    pub closed spec fn spec_cap(&self) -> usize {
        self.buffers.spec_cap()
    }

    /// How many samples of silence a new channel starts with.
    pub closed spec fn spec_prefill(&self) -> usize {
        self.buffers.spec_prefill()
    }

    /// The mixer's settings: the loopback cap and no initial silence.
    pub open spec fn wf(&self) -> bool {
        self.spec_cap() == loopback_cap() && self.spec_prefill() == 0
    }

    /// A paused loopback with nothing buffered.
    pub fn new() -> (r: Self)
        ensures
            !r.spec_playing(),
            r.spec_buffers() == Seq::<(usize, Seq<i16>)>::empty(),
            r.wf(),
    {
        Loopback { playing: false, buffers: SinkMixer::new(8192, 0) }
    }
}

impl AudioStream for Loopback {
    /// While playing, buffers the samples on their channel (keeping the last 8192) and
    /// takes them all; while paused, takes none.
    fn write(&mut self, channel: usize, samples: &[i16]) -> (r: usize)
        ensures
            r == if old(self).spec_playing() { samples@.len() } else { 0 },
            final(self).spec_buffers() == if old(self).spec_playing() {
                after_writing(old(self).spec_buffers(), channel, samples@, old(self).spec_cap() as nat, old(self).spec_prefill() as nat)
            } else {
                old(self).spec_buffers()
            },
            final(self).spec_playing() == old(self).spec_playing(),
            old(self).wf() ==> final(self).wf(),
    {
        if !self.playing {
            return 0;
        }
        self.buffers.write(channel, samples);
        samples.len()
    }

    /// While playing, fills `buf` with the channels mixed; while paused, with silence.
    /// Either way the whole buffer is filled.
    fn read(&mut self, buf: &mut Vec<i16>) -> (r: usize)
        ensures
            r == old(buf)@.len(),
            final(buf)@.len() == old(buf)@.len(),
            forall|j: int| 0 <= j < r ==> #[trigger] final(buf)@[j] == if old(self).spec_playing() {
                mixed_sample(old(self).spec_buffers(), j)
            } else {
                0i16
            },
            final(self).spec_buffers() == if old(self).spec_playing() {
                after_playing(old(self).spec_buffers(), old(buf)@.len())
            } else {
                old(self).spec_buffers()
            },
            final(self).spec_playing() == old(self).spec_playing(),
            old(self).wf() ==> final(self).wf(),
    {
        let n = buf.len();
        if !self.playing {
            let mut i: usize = 0;
            while i < n
                invariant
                    i <= n,
                    n == buf@.len(),
                    forall|j: int| 0 <= j < i ==> #[trigger] buf@[j] == 0i16,
                decreases n - i,
            {
                buf.set(i, 0);
                i += 1;
            }
            return n;
        }
        let mixed = self.buffers.mix(n);
        let mut i: usize = 0;
        while i < n
            invariant
                i <= n,
                n == buf@.len(),
                mixed@.len() == n,
                forall|j: int| 0 <= j < i ==> #[trigger] buf@[j] == mixed@[j],
            decreases n - i,
        {
            buf.set(i, mixed[i]);
            i += 1;
        }
        n
    }

    /// Starts playing.
    fn play(&mut self)
        ensures
            final(self).spec_playing(),
            final(self).spec_buffers() == old(self).spec_buffers(),
            old(self).wf() ==> final(self).wf(),
    {
        if !self.playing {
            self.playing = true;
        }
    }

    /// Stops playing.
    fn pause(&mut self)
        ensures
            !final(self).spec_playing(),
            final(self).spec_buffers() == old(self).spec_buffers(),
            old(self).wf() ==> final(self).wf(),
    {
        if self.playing {
            self.playing = false;
        }
    }
}

/// The echo bot's audio interface: each call gets a loopback stream.
#[derive(Debug)]
pub struct LoopbackInterface {}

impl LoopbackInterface {
    /// The echo bot's audio interface.
    pub fn new() -> (r: Self) {
        LoopbackInterface {}
    }

    /// A new stream for a call.
    pub fn create(&self) -> (r: Loopback)
        ensures
            !r.spec_playing(),
            r.spec_buffers() == Seq::<(usize, Seq<i16>)>::empty(),
            r.wf(),
    {
        Loopback::new()
    }
}

/// True when a file with this extension is a track the jukebox plays.
pub open spec fn is_track_extension_spec(ext: Option<Seq<char>>) -> bool {
    ext == Some("mp3"@) || ext == Some("m4a"@)
}

/// True when a file with this extension is a track the jukebox plays: `mp3` or `m4a`.
pub fn is_track_extension(ext: Option<&str>) -> (r: bool)
    ensures
        r == is_track_extension_spec(match ext { Some(e) => Some(e@), None => None }),
{
    proof {
        reveal_strlit("mp3");
        reveal_strlit("m4a");
    }
    match ext {
        Some(e) => crate::text::str_eq(e, "mp3") || crate::text::str_eq(e, "m4a"),
        None => false,
    }
}

/// Which of `count` tracks a random number picks: the number modulo the count (as a
/// `u32`).
pub fn pick_track(count: usize, random: u32) -> (r: usize)
    requires
        count as u32 != 0,
    ensures
        r == (random % (count as u32)) as usize,
        count <= u32::MAX ==> r < count,
{
    let c = count as u32;
    (random % c) as usize
}

/// A track picked at random from `count` tracks: a random `u32` modulo the count.
pub fn pick_random_track(count: usize) -> (r: usize)
    requires
        count as u32 != 0,
    ensures
        r < count as u32,
        count <= u32::MAX ==> r < count,
{
    let random = crate::clock::random_u32();
    pick_track(count, random)
}

/// True when the message at `i` is a latest one of `msgs`: none comes after it.
pub open spec fn is_latest(msgs: Seq<ChatMessage>, i: int) -> bool {
    &&& 0 <= i < msgs.len()
    &&& forall|j: int| 0 <= j < msgs.len() ==> #[trigger] not_after(msgs[j], msgs[i])
}

/// The echo bot's reply to the messages it holds: when the latest is not its own, a new
/// message from it to that message's sender whose content is `>> ` and the latest
/// message's content; otherwise no reply.
pub fn echo_reply(msgs: &Vec<ChatMessage>, own_key: &str) -> (r: Option<ChatMessage>)
    ensures
        msgs@.len() == 0 ==> r is None,
        r is None ==> msgs@.len() == 0 || exists|i: int| #[trigger] is_latest(msgs@, i) && msgs@[i].from@ == own_key@,
        r matches Some(reply) ==> exists|i: int| #[trigger] is_latest(msgs@, i)
            && msgs@[i].from@ != own_key@
            && reply.from@ == own_key@
            && reply.to@ == msgs@[i].from@
            && reply.content@ == ">> "@ + msgs@[i].content@
            && reply.created_at == 0,
{
    let last = match last_message(msgs) {
        Some(m) => m,
        None => return None,
    };
    let ghost i = choose|i: int| 0 <= i < msgs@.len() && msgs@[i] == last;
    assert(is_latest(msgs@, i));
    if crate::text::str_eq(last.from.as_str(), own_key) {
        return None;
    }
    let mut content = String::from_str(">> ");
    content.append(last.content.as_str());
    proof {
        reveal_strlit(">> ");
    }
    let reply = ChatMessage::create(own_key.to_string(), last.from.clone(), content);
    Some(reply)
}

/// The ids of the calls the echo bot accepts: those in which it is ringing, in order.
pub open spec fn ringing_ids(calls: Seq<Call>, own: Seq<char>) -> Seq<Seq<char>>
    decreases calls.len(),
{
    if calls.len() == 0 {
        Seq::empty()
    } else if status_of(calls.last().spec_parties(), own) == Some(CallPartyStatus::Ringing) {
        ringing_ids(calls.drop_last(), own).push(calls.last().spec_id())
    } else {
        ringing_ids(calls.drop_last(), own)
    }
}

/// The calls the echo bot answers: every call in which it is ringing, by id, in order.
pub fn calls_to_accept(calls: &Vec<Call>, own_key: &str) -> (r: Vec<String>)
    ensures
        r@.map_values(|s: String| s@) == ringing_ids(calls@, own_key@),
{
    let mut ids: Vec<String> = Vec::new();
    let mut i: usize = 0;
    while i < calls.len()
        invariant
            i <= calls@.len(),
            ids@.map_values(|s: String| s@) == ringing_ids(calls@.subrange(0, i as int), own_key@),
        decreases calls@.len() - i,
    {
        proof {
            let sub = calls@.subrange(0, i + 1);
            assert(sub.drop_last() =~= calls@.subrange(0, i as int));
            assert(sub.last() == calls@[i as int]);
        }
        let ghost before = ids@;
        if calls[i].get_status(own_key) == Some(CallPartyStatus::Ringing) {
            ids.push(calls[i].id().to_string());
            assert(ids@.map_values(|s: String| s@) =~= before.map_values(|s: String| s@).push(calls@[i as int].spec_id()));
        }
        i += 1;
    }
    assert(calls@.subrange(0, i as int) =~= calls@);
    ids
}

/// The optional views of the entries' extensions.
pub open spec fn ext_views(exts: Seq<Option<String>>) -> Seq<Option<Seq<char>>> {
    exts.map_values(|e: Option<String>| match e { Some(x) => Some(x@), None => None })
}

/// The positions of the entries whose extension is a track's, in order.
pub open spec fn track_positions(exts: Seq<Option<Seq<char>>>) -> Seq<int>
    decreases exts.len(),
{
    if exts.len() == 0 {
        Seq::empty()
    } else if is_track_extension_spec(exts.last()) {
        track_positions(exts.drop_last()).push(exts.len() - 1)
    } else {
        track_positions(exts.drop_last())
    }
}

/// Why no track was picked.
#[derive(Debug, PartialEq, Eq)]
pub enum TrackError {
    /// The library holds no `mp3` or `m4a` file.
    NoTracks,
}

impl TrackError {
    /// The message of the error.
    pub fn message(&self) -> (r: String)
        ensures
            r@ == "No tracks found"@,
    {
        String::from_str("No tracks found")
    }
}

proof fn lemma_track_positions(exts: Seq<Option<Seq<char>>>)
    ensures
        track_positions(exts).len() <= exts.len(),
        forall|k: int| 0 <= k < track_positions(exts).len() ==> {
            let i = #[trigger] track_positions(exts)[k];
            0 <= i < exts.len() && is_track_extension_spec(exts[i])
        },
    decreases exts.len(),
{
    if exts.len() > 0 {
        lemma_track_positions(exts.drop_last());
    }
}

/// The entry a random number picks among the tracks of a library whose entries have these
/// extensions (in the order the library lists them): the track at the number modulo the
/// track count (as a `u32`). No track is an error.
pub fn pick_track_entry(exts: &Vec<Option<String>>, random: u32) -> (r: Result<usize, TrackError>)
    requires
        track_positions(ext_views(exts@)).len() as u32 != 0 || track_positions(ext_views(exts@)).len() == 0,
    ensures
        ({
            let t = track_positions(ext_views(exts@));
            if t.len() == 0 {
                r == Err::<usize, TrackError>(TrackError::NoTracks)
            } else {
                r matches Ok(i) && i == t[(random % (t.len() as u32)) as int]
            }
        }),
{
    let ghost ev = ext_views(exts@);
    let mut tracks: Vec<usize> = Vec::new();
    let mut i: usize = 0;
    while i < exts.len()
        invariant
            i <= exts@.len(),
            ev == ext_views(exts@),
            tracks@.map_values(|x: usize| x as int) == track_positions(ev.subrange(0, i as int)),
        decreases exts@.len() - i,
    {
        let ext = match &exts[i] {
            Some(e) => Some(e.as_str()),
            None => None,
        };
        let is_track = is_track_extension(ext);
        proof {
            let sub = ev.subrange(0, i + 1);
            assert(sub.drop_last() =~= ev.subrange(0, i as int));
            assert(sub.last() == ev[i as int]);
        }
        let ghost before = tracks@;
        if is_track {
            tracks.push(i);
            assert(tracks@.map_values(|x: usize| x as int) =~= before.map_values(|x: usize| x as int).push(i as int));
        }
        i += 1;
    }
    assert(ev.subrange(0, i as int) =~= ev);
    if tracks.len() == 0 {
        return Err(TrackError::NoTracks);
    }
    let k = pick_track(tracks.len(), random);
    assert(tracks@.map_values(|x: usize| x as int).len() == tracks@.len());
    Ok(tracks[k])
}

/// The next track of a library whose entries have these extensions: a random one of its
/// tracks, or an error when it holds none.
pub fn load_next_track(exts: &Vec<Option<String>>) -> (r: Result<usize, TrackError>)
    requires
        track_positions(ext_views(exts@)).len() as u32 != 0 || track_positions(ext_views(exts@)).len() == 0,
    ensures
        ({
            let t = track_positions(ext_views(exts@));
            &&& (r is Err <==> t.len() == 0)
            &&& r matches Err(e) ==> e == TrackError::NoTracks
            &&& r matches Ok(i) ==> exists|random: u32| i == #[trigger] t[(random % (t.len() as u32)) as int]
            &&& r matches Ok(i) ==> i < exts@.len() && is_track_extension_spec(ext_views(exts@)[i as int])
        }),
{
    let random = crate::clock::random_u32();
    proof {
        lemma_track_positions(ext_views(exts@));
    }
    pick_track_entry(exts, random)
}

/// A stream that plays random tracks from a music library and ignores what it is sent.
/// The tracks themselves are decoded by the application and handed over whole.
#[derive(Debug)]
pub struct Jukebox {
    music_library: String,
    playing: bool,
    track: Option<Vec<i16>>,
    position: usize,
}

impl Jukebox {
    /// The folder the tracks come from.
    pub closed spec fn spec_library(&self) -> Seq<char> {
        self.music_library@
    }

    /// True while the stream plays.
    pub closed spec fn spec_playing(&self) -> bool {
        self.playing
    }

    /// The samples of the track not played yet, if a track is loaded.
    pub closed spec fn spec_remaining(&self) -> Option<Seq<i16>> {
        match self.track {
            Some(t) => Some(if self.position <= t@.len() { t@.subrange(self.position as int, t@.len() as int) } else { Seq::empty() }),
            None => None,
        }
    }

    /// A paused jukebox with no track loaded.
    pub fn new(music_library: String) -> (r: Self)
        ensures
            r.spec_library() == music_library@,
            !r.spec_playing(),
            r.spec_remaining().is_none(),
    {
        Jukebox { music_library, playing: false, track: None, position: 0 }
    }

    /// The folder the tracks come from.
    pub fn music_library(&self) -> (r: &str)
        ensures
            r@ == self.spec_library(),
    {
        self.music_library.as_str()
    }

    /// True when the next read needs a new track: the jukebox plays and has none.
    pub fn needs_track(&self) -> (r: bool)
        ensures
            r == (self.spec_playing() && self.spec_remaining().is_none()),
    {
        self.playing && self.track.is_none()
    }

    /// Loads a decoded track to play from its start.
    pub fn load_track(&mut self, samples: Vec<i16>)
        ensures
            final(self).spec_remaining() == Some(samples@),
            final(self).spec_playing() == old(self).spec_playing(),
            final(self).spec_library() == old(self).spec_library(),
    {
        self.track = Some(samples);
        self.position = 0;
        assert(samples@.subrange(0, samples@.len() as int) =~= samples@);
    }
}

impl AudioStream for Jukebox {
    /// Takes the samples and ignores them.
    fn write(&mut self, channel: usize, samples: &[i16]) -> (r: usize)
        ensures
            r == samples@.len(),
            final(self).spec_remaining() == old(self).spec_remaining(),
            final(self).spec_playing() == old(self).spec_playing(),
            final(self).spec_library() == old(self).spec_library(),
    {
        samples.len()
    }

    /// While paused, fills `buf` with silence. While playing with no track, fills nothing
    /// and returns 0. Otherwise fills `buf` from the track; when the track ends before
    /// `buf` is full, the rest of `buf` is left as it was and the track is dropped. Every
    /// case but the one with no track reports the whole buffer.
    fn read(&mut self, buf: &mut Vec<i16>) -> (r: usize)
        ensures
            !old(self).spec_playing() ==> r == old(buf)@.len() && final(buf)@ == Seq::new(old(buf)@.len(), |j: int| 0i16)
                && final(self).spec_remaining() == old(self).spec_remaining(),
            old(self).spec_playing() && old(self).spec_remaining().is_none() ==> r == 0 && final(buf)@ == old(buf)@
                && final(self).spec_remaining().is_none(),
            old(self).spec_playing() ==> (old(self).spec_remaining() matches Some(rest) ==> ({
                let n = if rest.len() < old(buf)@.len() { rest.len() } else { old(buf)@.len() as nat };
                &&& r == old(buf)@.len()
                &&& final(buf)@.len() == old(buf)@.len()
                &&& forall|j: int| 0 <= j < n ==> #[trigger] final(buf)@[j] == rest[j]
                &&& forall|j: int| n <= j < old(buf)@.len() ==> #[trigger] final(buf)@[j] == old(buf)@[j]
                &&& final(self).spec_remaining() == if rest.len() < old(buf)@.len() {
                    None
                } else {
                    Some(rest.subrange(n as int, rest.len() as int))
                }
            })),
            final(self).spec_playing() == old(self).spec_playing(),
            final(self).spec_library() == old(self).spec_library(),
    {
        let n = buf.len();
        if !self.playing {
            let mut i: usize = 0;
            while i < n
                invariant
                    i <= n,
                    n == buf@.len(),
                    forall|j: int| 0 <= j < i ==> #[trigger] buf@[j] == 0i16,
                decreases n - i,
            {
                buf.set(i, 0);
                i += 1;
            }
            assert(buf@ =~= Seq::new(n as nat, |j: int| 0i16));
            return n;
        }
        let mut ended = false;
        match &self.track {
            None => {
                return 0;
            },
            Some(track) => {
                let ghost rest = if self.position <= track@.len() { track@.subrange(self.position as int, track@.len() as int) } else { Seq::<i16>::empty() };
                let start = self.position;
                let tl = track.len();
                let avail: usize = if start <= track.len() { track.len() - start } else { 0 };
                let m: usize = if avail < n { avail } else { n };
                ended = avail < n;
                let mut i: usize = 0;
                while i < m
                    invariant
                        i <= m,
                        m <= n,
                        m <= avail,
                        avail == rest.len(),
                        start <= track@.len() ==> start + avail == track@.len(),
                        start > track@.len() ==> avail == 0,
                        tl == track@.len(),
                        n == buf@.len(),
                        buf@.len() == old(buf)@.len(),
                        rest == if start <= track@.len() { track@.subrange(start as int, track@.len() as int) } else { Seq::<i16>::empty() },
                        forall|j: int| 0 <= j < i ==> #[trigger] buf@[j] == rest[j],
                        forall|j: int| i <= j < n ==> #[trigger] buf@[j] == old(buf)@[j],
                    decreases m - i,
                {
                    buf.set(i, track[start + i]);
                    i += 1;
                }
                self.position = if ended { 0 } else { start + n };
                proof {
                    if !ended && start <= track@.len() {
                        assert(rest.subrange(n as int, rest.len() as int) =~= track@.subrange(start + n, track@.len() as int));
                    }
                }
            },
        }
        if ended {
            self.track = None;
        }
        n
    }

    /// Starts playing.
    fn play(&mut self)
        ensures
            final(self).spec_playing(),
            final(self).spec_remaining() == old(self).spec_remaining(),
            final(self).spec_library() == old(self).spec_library(),
    {
        if !self.playing {
            self.playing = true;
        }
    }

    /// Stops playing.
    fn pause(&mut self)
        ensures
            !final(self).spec_playing(),
            final(self).spec_remaining() == old(self).spec_remaining(),
            final(self).spec_library() == old(self).spec_library(),
    {
        if self.playing {
            self.playing = false;
        }
    }
}

/// The jukebox bot's audio interface: each call gets a jukebox on the same library.
#[derive(Debug)]
pub struct JukeboxInterface {
    music_library: String,
}

impl JukeboxInterface {
    /// The interface for a music library.
    pub fn new(music_library: String) -> (r: Self)
        ensures
            r.spec_library() == music_library@,
    {
        JukeboxInterface { music_library }
    }

    /// The folder the tracks come from.
    pub closed spec fn spec_library(&self) -> Seq<char> {
        self.music_library@
    }

    /// A new stream for a call.
    pub fn create(&self) -> (r: Jukebox)
        ensures
            r.spec_library() == self.spec_library(),
            !r.spec_playing(),
            r.spec_remaining().is_none(),
    {
        Jukebox::new(self.music_library.clone())
    }
}

/// How many samples a desktop client's playback channel keeps: about 340 ms at 48 kHz.
pub open spec fn sink_buffer_cap() -> nat {
    16384
}

/// How many samples of silence a new playback channel starts with, as a jitter buffer.
pub open spec fn sink_prefill() -> nat {
    2048
}

/// How many captured samples the desktop client keeps: about 100 ms at 48 kHz.
pub open spec fn source_buffer_cap() -> nat {
    4096
}

/// What the desktop client's stream does between the sound device and the call: the
/// playback buffers, the capture buffer, and whether it plays or has failed. The device
/// callbacks run in the application and move samples in and out.
#[derive(Debug)]
pub struct DeviceStreamState {
    playing: bool,
    error: bool,
    sink: SinkMixer,
    source: SourceBuffer,
}

impl DeviceStreamState {
    /// True while the stream plays.
    pub closed spec fn spec_playing(&self) -> bool {
        self.playing
    }

    /// True once the device reported an error.
    pub closed spec fn spec_error(&self) -> bool {
        self.error
    }

    /// The playback buffers, by channel.
    pub closed spec fn spec_sink(&self) -> Seq<(usize, Seq<i16>)> {
        self.sink.spec_buffers()
    }

    /// The captured samples waiting to be sent.
    pub closed spec fn spec_source(&self) -> Seq<i16> {
        self.source.spec_samples()
    }

    /// How many samples a playback channel keeps.
    pub closed spec fn spec_sink_cap(&self) -> usize {
        self.sink.spec_cap()
    }

    /// How many samples of silence a new playback channel starts with.
    pub closed spec fn spec_sink_prefill(&self) -> usize {
        self.sink.spec_prefill()
    }

    /// How many captured samples are kept.
    pub closed spec fn spec_source_cap(&self) -> usize {
        self.source.spec_cap()
    }

    /// The settings of the buffers.
    pub open spec fn wf(&self) -> bool {
        &&& self.spec_sink_cap() == sink_buffer_cap()
        &&& self.spec_sink_prefill() == sink_prefill()
        &&& self.spec_source_cap() == source_buffer_cap()
    }

    /// A paused stream with empty buffers and no error.
    pub fn new() -> (r: Self)
        ensures
            r.wf(),
            !r.spec_playing(),
            !r.spec_error(),
            r.spec_sink() == Seq::<(usize, Seq<i16>)>::empty(),
            r.spec_source() == Seq::<i16>::empty(),
    {
        DeviceStreamState { playing: false, error: false, sink: SinkMixer::new(16384, 2048), source: SourceBuffer::new(4096) }
    }

    /// Notes that the device failed.
    pub fn set_error(&mut self)
        ensures
            final(self).spec_error(),
            final(self).spec_playing() == old(self).spec_playing(),
            final(self).spec_sink() == old(self).spec_sink(),
            final(self).spec_source() == old(self).spec_source(),
            old(self).wf() ==> final(self).wf(),
    {
        self.error = true;
    }

    /// The device's output callback: the next `n` mixed samples.
    pub fn fill_output(&mut self, n: usize) -> (r: Vec<i16>)
        ensures
            r@.len() == n,
            forall|j: int| 0 <= j < n ==> #[trigger] r@[j] == mixed_sample(old(self).spec_sink(), j),
            final(self).spec_sink() == after_playing(old(self).spec_sink(), n as nat),
            final(self).spec_source() == old(self).spec_source(),
            final(self).spec_playing() == old(self).spec_playing(),
            final(self).spec_error() == old(self).spec_error(),
            old(self).wf() ==> final(self).wf(),
    {
        self.sink.mix(n)
    }

    /// The device's input callback: captured samples go into the capture buffer.
    pub fn fill_input(&mut self, data: &[i16])
        ensures
            final(self).spec_source() == capture_all(old(self).spec_source(), data@, old(self).spec_source_cap() as nat),
            final(self).spec_sink() == old(self).spec_sink(),
            final(self).spec_playing() == old(self).spec_playing(),
            final(self).spec_error() == old(self).spec_error(),
            old(self).wf() ==> final(self).wf(),
    {
        self.source.capture(data);
    }

    /// True when playing and pausing should start the device's streams.
    pub fn start(&mut self) -> (changed: bool)
        ensures
            changed == !old(self).spec_playing(),
            final(self).spec_playing(),
            final(self).spec_sink() == old(self).spec_sink(),
            final(self).spec_source() == old(self).spec_source(),
            final(self).spec_error() == old(self).spec_error(),
            old(self).wf() ==> final(self).wf(),
    {
        let changed = !self.playing;
        self.playing = true;
        changed
    }

    /// True when pausing should stop the device's streams.
    pub fn stop(&mut self) -> (changed: bool)
        ensures
            changed == old(self).spec_playing(),
            !final(self).spec_playing(),
            final(self).spec_sink() == old(self).spec_sink(),
            final(self).spec_source() == old(self).spec_source(),
            final(self).spec_error() == old(self).spec_error(),
            old(self).wf() ==> final(self).wf(),
    {
        let changed = self.playing;
        self.playing = false;
        changed
    }
}

impl AudioStream for DeviceStreamState {
    /// While playing, buffers the samples on their channel (a new channel starts with
    /// 2048 samples of silence; 16384 are kept) and takes them all; while paused, none.
    fn write(&mut self, channel: usize, samples: &[i16]) -> (r: usize)
        ensures
            r == if old(self).spec_playing() { samples@.len() } else { 0 },
            final(self).spec_sink() == if old(self).spec_playing() {
                after_writing(old(self).spec_sink(), channel, samples@, old(self).spec_sink_cap() as nat, old(self).spec_sink_prefill() as nat)
            } else {
                old(self).spec_sink()
            },
            final(self).spec_source() == old(self).spec_source(),
            final(self).spec_playing() == old(self).spec_playing(),
            old(self).wf() ==> final(self).wf(),
    {
        if !self.playing {
            return 0;
        }
        self.sink.write(channel, samples);
        samples.len()
    }

    /// While playing, moves as many captured samples as there are, up to `buf.len()`,
    /// into `buf`; while paused, moves none.
    fn read(&mut self, buf: &mut Vec<i16>) -> (r: usize)
        ensures
            !old(self).spec_playing() ==> r == 0 && final(buf)@ == old(buf)@ && final(self).spec_source() == old(self).spec_source(),
            old(self).spec_playing() ==> r == (if old(self).spec_source().len() < old(buf)@.len() { old(self).spec_source().len() } else { old(buf)@.len() })
                && final(buf)@.len() == old(buf)@.len()
                && (forall|k: int| 0 <= k < r ==> #[trigger] final(buf)@[k] == old(self).spec_source()[k])
                && (forall|k: int| r <= k < old(buf)@.len() ==> #[trigger] final(buf)@[k] == old(buf)@[k])
                && final(self).spec_source() == old(self).spec_source().subrange(r as int, old(self).spec_source().len() as int),
            final(self).spec_sink() == old(self).spec_sink(),
            final(self).spec_playing() == old(self).spec_playing(),
            old(self).wf() ==> final(self).wf(),
    {
        if !self.playing {
            return 0;
        }
        self.source.read_into(buf)
    }

    /// Starts playing.
    fn play(&mut self)
        ensures
            final(self).spec_playing(),
            final(self).spec_sink() == old(self).spec_sink(),
            final(self).spec_source() == old(self).spec_source(),
            old(self).wf() ==> final(self).wf(),
    {
        self.playing = true;
    }

    /// Stops playing.
    fn pause(&mut self)
        ensures
            !final(self).spec_playing(),
            final(self).spec_sink() == old(self).spec_sink(),
            final(self).spec_source() == old(self).spec_source(),
            old(self).wf() ==> final(self).wf(),
    {
        self.playing = false;
    }

    /// True once the device reported an error.
    fn has_error(&self) -> (r: bool)
        ensures
            r == self.spec_error(),
    {
        self.error
    }
}

/// The desktop client's audio interface: each call gets a stream on the default devices.
#[derive(Debug)]
pub struct ClientInterface {}

impl ClientInterface {
    /// The desktop client's audio interface.
    pub fn new() -> (r: Self) {
        ClientInterface {}
    }
}

/// The desktop client's command line: where its data lives.
#[derive(Debug, Clone)]
pub struct Args {
    /// Path to the data directory.
    pub data_dir: Option<String>,
}

} // verus!
