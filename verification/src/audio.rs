//! Audio streams: what the client asks of a sound device, and the buffers that mix the
//! parties' audio for playback and hold captured audio until it is sent.
use vstd::prelude::*;

verus! {

/// The sample rate of all call audio.
pub const AUDIO_INTERFACE_SAMPLE_RATE: u32 = 48000;

/// The number of channels of call audio: one.
pub const AUDIO_INTERFACE_CHANNEL_COUNT: u8 = 1;

/// A sound device (or anything standing in for one) that a call plays to and captures
/// from.
pub trait AudioStream {
    /// Plays `samples` on `channel` (one channel a party); returns how many were taken.
    fn write(&mut self, channel: usize, samples: &[i16]) -> usize;

    /// Fills `buf` with captured audio; returns how many samples were filled.
    fn read(&mut self, buf: &mut Vec<i16>) -> usize;

    /// Starts playing and capturing; playing again is harmless.
    fn play(&mut self);

    /// Stops playing and capturing; pausing again is harmless.
    fn pause(&mut self);

    /// True when the device has failed and the stream should be made anew.
    fn has_error(&self) -> (r: bool)
        default_ensures
            !r,
    {
        false
    }
}

/// The last `cap` samples of `s` (all of them when there are no more than `cap`).
pub open spec fn keep_last(s: Seq<i16>, cap: nat) -> Seq<i16> {
    if s.len() > cap {
        s.subrange(s.len() - cap, s.len() as int)
    } else {
        s
    }
}

/// Sample `j` of a buffer, or silence past its end.
pub open spec fn sample_or_silence(s: Seq<i16>, j: int) -> int {
    if 0 <= j < s.len() {
        s[j] as int
    } else {
        0
    }
}

/// The sum of sample `j` over the first `n` buffers.
pub open spec fn mix_sum(buffers: Seq<(usize, Seq<i16>)>, j: int, n: int) -> int
    decreases n,
{
    if n <= 0 {
        0
    } else {
        mix_sum(buffers, j, n - 1) + sample_or_silence(buffers[n - 1].1, j)
    }
}

/// A sum of samples brought into the range of an `i16`.
pub open spec fn clamp_i16(v: int) -> i16 {
    if v < -32768 {
        -32768i16
    } else if v > 32767 {
        32767i16
    } else {
        v as i16
    }
}

/// The mixed output sample `j`: the sum over all buffers, clamped.
pub open spec fn mixed_sample(buffers: Seq<(usize, Seq<i16>)>, j: int) -> i16 {
    clamp_i16(mix_sum(buffers, j, buffers.len() as int))
}

/// Each buffer with its first `n` samples (or all it has, if fewer) played.
pub open spec fn after_playing(buffers: Seq<(usize, Seq<i16>)>, n: nat) -> Seq<(usize, Seq<i16>)> {
    buffers.map_values(|b: (usize, Seq<i16>)| (b.0, if b.1.len() > n { b.1.subrange(n as int, b.1.len() as int) } else { Seq::<i16>::empty() }))
}

/// Index of the buffer of `channel`, or -1.
pub open spec fn channel_index(buffers: Seq<(usize, Seq<i16>)>, channel: usize) -> int
    decreases buffers.len(),
{
    if buffers.len() == 0 {
        -1
    } else {
        let i = channel_index(buffers.drop_last(), channel);
        if i >= 0 {
            i
        } else if buffers.last().0 == channel {
            buffers.len() - 1
        } else {
            -1
        }
    }
}

/// The buffers after `samples` are written to `channel`: a new channel gets a buffer
/// (starting with `prefill` samples of silence), the samples go at its end, and only its
/// last `cap` samples are kept.
pub open spec fn after_writing(buffers: Seq<(usize, Seq<i16>)>, channel: usize, samples: Seq<i16>, cap: nat, prefill: nat) -> Seq<(usize, Seq<i16>)> {
    let i = channel_index(buffers, channel);
    if i >= 0 {
        buffers.update(i, (channel, keep_last(buffers[i].1 + samples, cap)))
    } else {
        buffers.push((channel, keep_last(Seq::new(prefill, |k: int| 0i16) + samples, cap)))
    }
}

/// The playback side of a stream: one buffer per channel, mixed into one output.
#[derive(Debug)]
pub struct SinkMixer {
    cap: usize,
    prefill: usize,
    buffers: Vec<(usize, Vec<i16>)>,
}

impl SinkMixer {
    /// The buffers, by channel.
    pub closed spec fn spec_buffers(&self) -> Seq<(usize, Seq<i16>)> {
        self.buffers@.map_values(|b: (usize, Vec<i16>)| (b.0, b.1@))
    }

    /// How many samples a buffer keeps at most.
    pub closed spec fn spec_cap(&self) -> usize {
        self.cap
    }

    /// How many samples of silence a new channel's buffer starts with.
    pub closed spec fn spec_prefill(&self) -> usize {
        self.prefill
    }

    /// A mixer with no channels yet; each buffer keeps at most `cap` samples and starts
    /// with `prefill` samples of silence.
    pub fn new(cap: usize, prefill: usize) -> (r: Self)
        ensures
            r.spec_buffers() == Seq::<(usize, Seq<i16>)>::empty(),
            r.spec_cap() == cap,
            r.spec_prefill() == prefill,
    {
        let r = SinkMixer { cap, prefill, buffers: Vec::new() };
        assert(r.spec_buffers() =~= Seq::<(usize, Seq<i16>)>::empty());
        r
    }

    /// Adds samples to a channel's buffer, keeping its last `cap` samples.
    pub fn write(&mut self, channel: usize, samples: &[i16])
        ensures
            final(self).spec_buffers() == after_writing(old(self).spec_buffers(), channel, samples@, old(self).spec_cap() as nat, old(self).spec_prefill() as nat),
            ({
                let i = channel_index(old(self).spec_buffers(), channel);
                let cap = old(self).spec_cap() as nat;
                i >= 0 ==> final(self).spec_buffers()[i].1 == keep_last(old(self).spec_buffers()[i].1 + samples@, cap)
            }),
            final(self).spec_cap() == old(self).spec_cap(),
            final(self).spec_prefill() == old(self).spec_prefill(),
    {
        let ghost bv = self.spec_buffers();
        let mut i: usize = 0;
        while i < self.buffers.len() && self.buffers[i].0 != channel
            invariant
                i <= self.buffers@.len(),
                bv == self.buffers@.map_values(|b: (usize, Vec<i16>)| (b.0, b.1@)),
                forall|k: int| 0 <= k < i ==> bv[k].0 != channel,
            decreases self.buffers@.len() - i,
        {
            i += 1;
        }
        proof {
            lemma_channel_index(bv, channel);
            if i < bv.len() {
                assert(bv[i as int].0 == self.buffers@[i as int].0);
            }
        }
        let mut buf: Vec<i16> = Vec::new();
        let found = i < self.buffers.len();
        let ghost orig = self.buffers@;
        if found {
            let mut tmp: (usize, Vec<i16>) = (channel, Vec::new());
            std::mem::swap(&mut tmp, &mut self.buffers[i]);
            assert(tmp.1@ == bv[i as int].1);
            buf = tmp.1;
        } else {
            let mut k: usize = 0;
            while k < self.prefill
                invariant
                    k <= self.prefill,
                    buf@ == Seq::new(k as nat, |m: int| 0i16),
                decreases self.prefill - k,
            {
                buf.push(0);
                k += 1;
                assert(buf@ =~= Seq::new(k as nat, |m: int| 0i16));
            }
        }
        let ghost before = buf@;
        let mut j: usize = 0;
        while j < samples.len()
            invariant
                j <= samples@.len(),
                buf@ == before + samples@.subrange(0, j as int),
            decreases samples@.len() - j,
        {
            buf.push(samples[j]);
            j += 1;
            assert(buf@ =~= before + samples@.subrange(0, j as int));
        }
        assert(samples@.subrange(0, j as int) =~= samples@);
        let kept = keep_last_vec(buf, self.cap);
        if found {
            self.buffers.set(i, (channel, kept));
        } else {
            self.buffers.push((channel, kept));
        }
        proof {
            let spec = after_writing(bv, channel, samples@, self.cap as nat, self.prefill as nat);
            if found {
                assert(channel_index(bv, channel) == i);
                assert forall|k: int| 0 <= k < bv.len() implies #[trigger] self.spec_buffers()[k] == spec[k] by {
                    if k != i {
                        assert(self.buffers@[k] == orig[k]);
                    }
                }
                assert(self.spec_buffers() =~= spec);
            } else {
                assert(self.spec_buffers() =~= spec);
            }
        }
    }

    /// Mixes the next `n` output samples: each is the sum over the channels of their next
    /// sample (silence past a buffer's end), clamped to the range of an `i16`; each
    /// buffer loses the samples played.
    pub fn mix(&mut self, n: usize) -> (r: Vec<i16>)
        ensures
            r@.len() == n,
            forall|j: int| 0 <= j < n ==> #[trigger] r@[j] == mixed_sample(old(self).spec_buffers(), j),
            final(self).spec_buffers() == after_playing(old(self).spec_buffers(), n as nat),
            final(self).spec_cap() == old(self).spec_cap(),
            final(self).spec_prefill() == old(self).spec_prefill(),
    {
        let ghost bv = self.spec_buffers();
        let mut out: Vec<i16> = Vec::new();
        let mut j: usize = 0;
        while j < n
            invariant
                j <= n,
                bv == self.buffers@.map_values(|b: (usize, Vec<i16>)| (b.0, b.1@)),
                out@.len() == j,
                forall|k: int| 0 <= k < j ==> #[trigger] out@[k] == mixed_sample(bv, k),
            decreases n - j,
        {
            let mut sum: i128 = 0;
            let mut c: usize = 0;
            while c < self.buffers.len()
                invariant
                    c <= self.buffers@.len(),
                    bv == self.buffers@.map_values(|b: (usize, Vec<i16>)| (b.0, b.1@)),
                    sum == mix_sum(bv, j as int, c as int),
                    -32768 * c <= sum <= 32767 * c,
                decreases self.buffers@.len() - c,
            {
                let s: i128 = if j < self.buffers[c].1.len() { self.buffers[c].1[j] as i128 } else { 0 };
                assert(s == sample_or_silence(bv[c as int].1, j as int));
                sum = sum + s;
                c += 1;
            }
            let v: i16 = if sum < -32768 { -32768 } else if sum > 32767 { 32767 } else { sum as i16 };
            out.push(v);
            j += 1;
        }
        let mut c: usize = 0;
        while c < self.buffers.len()
            invariant
                c <= self.buffers@.len(),
                self.buffers@.len() == bv.len(),
                forall|k: int| 0 <= k < c ==> #[trigger] self.buffers@[k].0 == bv[k].0
                    && self.buffers@[k].1@ == after_playing(bv, n as nat)[k].1,
                forall|k: int| c <= k < self.buffers@.len() ==> (#[trigger] self.buffers@[k]).0 == bv[k].0 && self.buffers@[k].1@ == bv[k].1,
                self.cap == old(self).cap,
                self.prefill == old(self).prefill,
            decreases self.buffers@.len() - c,
        {
            let ghost pre = self.buffers@;
            let mut tmp: (usize, Vec<i16>) = (0, Vec::new());
            std::mem::swap(&mut tmp, &mut self.buffers[c]);
            assert(tmp.0 == bv[c as int].0 && tmp.1@ == bv[c as int].1);
            let rest = drop_first_n(tmp.1, n);
            self.buffers.set(c, (tmp.0, rest));
            proof {
                assert(after_playing(bv, n as nat)[c as int].1 == rest@);
                assert forall|k: int| 0 <= k < self.buffers@.len() && k != c implies #[trigger] self.buffers@[k] == pre[k] by {}
            }
            c += 1;
        }
        assert(self.spec_buffers() =~= after_playing(bv, n as nat));
        out
    }
}

/// `channel_index` is the first index of the channel's buffer, or -1.
proof fn lemma_channel_index(buffers: Seq<(usize, Seq<i16>)>, channel: usize)
    ensures
        -1 <= channel_index(buffers, channel) < buffers.len(),
        channel_index(buffers, channel) >= 0 ==> buffers[channel_index(buffers, channel)].0 == channel,
        forall|k: int| 0 <= k < buffers.len() && (k < channel_index(buffers, channel) || channel_index(buffers, channel) == -1) ==> buffers[k].0 != channel,
    decreases buffers.len(),
{
    if buffers.len() > 0 {
        let d = buffers.drop_last();
        lemma_channel_index(d, channel);
        assert forall|k: int| 0 <= k < buffers.len() && (k < channel_index(buffers, channel) || channel_index(buffers, channel) == -1) implies buffers[k].0 != channel by {
            if k < d.len() {
                assert(buffers[k] == d[k]);
            }
        }
    }
}

/// The channel's buffer is the first with its channel number, and `-1` means none has it.
proof fn lemma_channel_index_is(buffers: Seq<(usize, Seq<i16>)>, channel: usize, j: int)
    requires
        -1 <= j < buffers.len(),
        j >= 0 ==> buffers[j].0 == channel,
        forall|k: int| 0 <= k < buffers.len() && (k < j || j == -1) ==> buffers[k].0 != channel,
    ensures
        channel_index(buffers, channel) == j,
{
    lemma_channel_index(buffers, channel);
    let ci = channel_index(buffers, channel);
    if ci != j {
        if ci == -1 {
            assert(buffers[j].0 == channel);
        } else if j == -1 || ci < j {
            assert(buffers[ci].0 == channel);
        } else {
            assert(buffers[j].0 != channel);
        }
    }
}

/// Keeping the last `cap` samples before appending more keeps the same last `cap` samples
/// as appending first.
proof fn lemma_keep_last_append(x: Seq<i16>, b: Seq<i16>, cap: nat)
    ensures
        keep_last(keep_last(x, cap) + b, cap) == keep_last(x + b, cap),
{
    let y = keep_last(x, cap);
    if x.len() > cap {
        let s1 = y + b;
        let s2 = x + b;
        let d = x.len() - cap;
        assert forall|k: int| 0 <= k < s1.len() implies #[trigger] s1[k] == s2[k + d] by {
            if k < y.len() {
                assert(y[k] == x[k + d]);
            } else {
                assert(s1[k] == b[k - y.len()]);
                assert(s2[k + d] == b[k + d - x.len()]);
            }
        }
        if s1.len() > cap {
            assert(keep_last(s1, cap) =~= keep_last(s2, cap)) by {
                assert forall|k: int| 0 <= k < cap implies keep_last(s1, cap)[k] == keep_last(s2, cap)[k] by {
                    assert(keep_last(s1, cap)[k] == s1[s1.len() - cap + k]);
                    assert(keep_last(s2, cap)[k] == s2[s2.len() - cap + k]);
                }
            }
        }
    } else {
        assert(y == x);
    }
}

/// Writing samples to a channel in two pieces leaves the buffers as writing them at once
/// does: a write adds to the channel exactly the samples written, and the silence that
/// starts a buffer is added once, when the channel is new.
pub proof fn law_write_in_pieces(buffers: Seq<(usize, Seq<i16>)>, channel: usize, a: Seq<i16>, b: Seq<i16>, cap: nat, prefill: nat)
    ensures
        after_writing(after_writing(buffers, channel, a, cap, prefill), channel, b, cap, prefill)
            == after_writing(buffers, channel, a + b, cap, prefill),
{
    lemma_channel_index(buffers, channel);
    let i = channel_index(buffers, channel);
    let b1 = after_writing(buffers, channel, a, cap, prefill);
    if i >= 0 {
        let x = buffers[i].1;
        assert forall|k: int| 0 <= k < b1.len() && (k < i || i == -1) implies b1[k].0 != channel by {
            assert(b1[k] == buffers[k]);
        }
        lemma_channel_index_is(b1, channel, i);
        lemma_keep_last_append(x + a, b, cap);
        lemma_keep_last_append(x + a, b, cap);
        assert(x + a + b =~= x + (a + b));
        assert(b1[i].1 == keep_last(x + a, cap));
        assert(after_writing(b1, channel, b, cap, prefill) =~= after_writing(buffers, channel, a + b, cap, prefill));
    } else {
        let z = Seq::new(prefill, |k: int| 0i16);
        let n = buffers.len() as int;
        assert forall|k: int| 0 <= k < b1.len() && (k < n || n == -1) implies b1[k].0 != channel by {
            assert(b1[k] == buffers[k]);
        }
        lemma_channel_index_is(b1, channel, n);
        lemma_keep_last_append(z + a, b, cap);
        assert(z + a + b =~= z + (a + b));
        assert(after_writing(b1, channel, b, cap, prefill) =~= after_writing(buffers, channel, a + b, cap, prefill));
    }
}

/// Writing to a channel changes no other channel's buffer, and the written channel's
/// buffer ends with the samples written (all of them when they fit).
pub proof fn law_write_appends(buffers: Seq<(usize, Seq<i16>)>, channel: usize, samples: Seq<i16>, cap: nat, prefill: nat)
    requires
        samples.len() <= cap,
    ensures
        ({
            let after = after_writing(buffers, channel, samples, cap, prefill);
            let j = channel_index(after, channel);
            &&& 0 <= j < after.len()
            &&& after[j].1.subrange(after[j].1.len() - samples.len(), after[j].1.len() as int) == samples
            &&& forall|k: int| 0 <= k < buffers.len() && buffers[k].0 != channel ==> #[trigger] after[k] == buffers[k]
        }),
{
    lemma_channel_index(buffers, channel);
    let i = channel_index(buffers, channel);
    let after = after_writing(buffers, channel, samples, cap, prefill);
    let n = buffers.len() as int;
    let j = if i >= 0 { i } else { n };
    assert forall|k: int| 0 <= k < after.len() && (k < j || j == -1) implies after[k].0 != channel by {
        assert(after[k] == buffers[k]);
    }
    lemma_channel_index_is(after, channel, j);
    let full = if i >= 0 { buffers[i].1 + samples } else { Seq::new(prefill, |k: int| 0i16) + samples };
    assert(after[j].1 == keep_last(full, cap));
    let kept = keep_last(full, cap);
    assert(kept.subrange(kept.len() - samples.len(), kept.len() as int) =~= samples) by {
        assert forall|k: int| 0 <= k < samples.len() implies kept[kept.len() - samples.len() + k] == samples[k] by {
            assert(full[full.len() - samples.len() + k] == samples[k]);
        }
    }
}

/// The last `cap` samples.
fn keep_last_vec(v: Vec<i16>, cap: usize) -> (r: Vec<i16>)
    ensures
        r@ == keep_last(v@, cap as nat),
{
    if v.len() <= cap {
        return v;
    }
    let start = v.len() - cap;
    let mut out: Vec<i16> = Vec::new();
    let mut i = start;
    while i < v.len()
        invariant
            start <= i <= v@.len(),
            out@ == v@.subrange(start as int, i as int),
        decreases v@.len() - i,
    {
        out.push(v[i]);
        i += 1;
        assert(out@ =~= v@.subrange(start as int, i as int));
    }
    out
}

/// The samples after the first `n`.
fn drop_first_n(v: Vec<i16>, n: usize) -> (r: Vec<i16>)
    ensures
        r@ == if v@.len() > n { v@.subrange(n as int, v@.len() as int) } else { Seq::<i16>::empty() },
{
    let mut out: Vec<i16> = Vec::new();
    if v.len() <= n {
        return out;
    }
    let mut i = n;
    while i < v.len()
        invariant
            n <= i <= v@.len(),
            out@ == v@.subrange(n as int, i as int),
        decreases v@.len() - i,
    {
        out.push(v[i]);
        i += 1;
        assert(out@ =~= v@.subrange(n as int, i as int));
    }
    out
}

/// One captured sample taken: it goes at the end, and the oldest goes when the buffer
/// then holds more than `cap`.
pub open spec fn capture_one(s: Seq<i16>, x: i16, cap: nat) -> Seq<i16> {
    if s.len() + 1 > cap {
        s.push(x).drop_first()
    } else {
        s.push(x)
    }
}

/// Captured samples taken one by one.
pub open spec fn capture_all(s: Seq<i16>, data: Seq<i16>, cap: nat) -> Seq<i16>
    decreases data.len(),
{
    if data.len() == 0 {
        s
    } else {
        capture_one(capture_all(s, data.drop_last(), cap), data.last(), cap)
    }
}

/// A capture buffer keeps the newest samples: when it holds no more than `cap` (and
/// `cap` is not zero), taking samples leaves exactly the last `cap` of what it held
/// followed by them.
pub proof fn law_capture_keeps_newest(s: Seq<i16>, data: Seq<i16>, cap: nat)
    requires
        cap > 0,
        s.len() <= cap,
    ensures
        capture_all(s, data, cap) == keep_last(s + data, cap),
    decreases data.len(),
{
    if data.len() > 0 {
        let d = data.drop_last();
        law_capture_keeps_newest(s, d, cap);
        let prev = keep_last(s + d, cap);
        assert(s + data =~= (s + d).push(data.last()));
        let whole = (s + d).push(data.last());
        if (s + d).len() > cap {
            assert(prev.push(data.last()).drop_first() =~= whole.subrange(whole.len() - cap, whole.len() as int));
        } else if (s + d).len() + 1 > cap {
            assert(prev.push(data.last()).drop_first() =~= whole.subrange(whole.len() - cap, whole.len() as int));
        }
    } else {
        assert(s + data =~= s);
    }
}

/// The capture side of a stream: samples waiting to be sent, the oldest dropped beyond
/// a cap.
#[derive(Debug)]
pub struct SourceBuffer {
    cap: usize,
    samples: Vec<i16>,
}

impl SourceBuffer {
    /// The samples waiting, oldest first.
    pub closed spec fn spec_samples(&self) -> Seq<i16> {
        self.samples@
    }

    /// How many samples the buffer keeps at most.
    pub closed spec fn spec_cap(&self) -> usize {
        self.cap
    }

    /// An empty buffer that keeps at most `cap` samples.
    pub fn new(cap: usize) -> (r: Self)
        ensures
            r.spec_samples() == Seq::<i16>::empty(),
            r.spec_cap() == cap,
    {
        SourceBuffer { cap, samples: Vec::new() }
    }

    /// Takes captured samples: each goes at the end, and when the buffer then holds more
    /// than `cap` samples the oldest goes.
    pub fn capture(&mut self, data: &[i16])
        ensures
            final(self).spec_samples() == capture_all(old(self).spec_samples(), data@, old(self).spec_cap() as nat),
            final(self).spec_cap() == old(self).spec_cap(),
    {
        let ghost start = self.samples@;
        let mut i: usize = 0;
        while i < data.len()
            invariant
                i <= data@.len(),
                self.cap == old(self).cap,
                self.samples@ == capture_all(start, data@.subrange(0, i as int), self.cap as nat),
            decreases data@.len() - i,
        {
            self.samples.push(data[i]);
            if self.samples.len() > self.cap {
                self.samples.remove(0);
            }
            proof {
                let next = data@.subrange(0, i + 1);
                assert(next.drop_last() =~= data@.subrange(0, i as int));
                assert(next.last() == data@[i as int]);
            }
            i += 1;
        }
        assert(data@.subrange(0, i as int) =~= data@);
    }

    /// Moves up to `buf.len()` of the oldest samples into `buf`; returns how many.
    pub fn read_into(&mut self, buf: &mut Vec<i16>) -> (n: usize)
        ensures
            n == if old(self).spec_samples().len() < old(buf)@.len() { old(self).spec_samples().len() } else { old(buf)@.len() },
            final(buf)@.len() == old(buf)@.len(),
            forall|k: int| 0 <= k < n ==> #[trigger] final(buf)@[k] == old(self).spec_samples()[k],
            forall|k: int| n <= k < old(buf)@.len() ==> #[trigger] final(buf)@[k] == old(buf)@[k],
            final(self).spec_samples() == old(self).spec_samples().subrange(n as int, old(self).spec_samples().len() as int),
            final(self).spec_cap() == old(self).spec_cap(),
    {
        let n = if self.samples.len() < buf.len() { self.samples.len() } else { buf.len() };
        let mut i: usize = 0;
        while i < n
            invariant
                i <= n,
                n <= self.samples@.len(),
                n <= buf@.len(),
                self.samples@ == old(self).samples@,
                buf@.len() == old(buf)@.len(),
                forall|k: int| 0 <= k < i ==> #[trigger] buf@[k] == self.samples@[k],
                forall|k: int| i <= k < buf@.len() ==> #[trigger] buf@[k] == old(buf)@[k],
            decreases n - i,
        {
            buf.set(i, self.samples[i]);
            i += 1;
        }
        let mut taken: Vec<i16> = Vec::new();
        std::mem::swap(&mut taken, &mut self.samples);
        self.samples = drop_first_n(taken, n);
        n
    }
}

} // verus!
