//! The layout of a store head's file: one frame per saved record, a frame being the
//! record's encoded length as four little-endian bytes followed by the encoded record.
//! A file may end in a torn frame (cut short while being written); reading stops there.
use vstd::prelude::*;

verus! {

/// The number four little-endian bytes stand for.
pub open spec fn le_u32(b: Seq<u8>) -> nat {
    (b[0] as nat) + (b[1] as nat) * 256 + (b[2] as nat) * 65536 + (b[3] as nat) * 16777216
}

/// The four little-endian bytes of a number below 2^32.
pub open spec fn le_bytes(n: nat) -> Seq<u8> {
    seq![(n % 256) as u8, ((n / 256) % 256) as u8, ((n / 65536) % 256) as u8, ((n / 16777216) % 256) as u8]
}

/// One frame: the body's length, then the body.
pub open spec fn frame(body: Seq<u8>) -> Seq<u8> {
    le_bytes(body.len()) + body
}

/// The frames of several bodies, one after the other.
pub open spec fn frame_all(bodies: Seq<Seq<u8>>) -> Seq<u8>
    decreases bodies.len(),
{
    if bodies.len() == 0 {
        Seq::<u8>::empty()
    } else {
        frame(bodies[0]) + frame_all(bodies.drop_first())
    }
}

/// The bodies of the whole frames at the start of `data`, in order; reading stops at
/// fewer than four bytes left or at a frame whose body runs past the end.
pub open spec fn frames(data: Seq<u8>) -> Seq<Seq<u8>>
    decreases data.len(),
{
    if data.len() < 4 {
        Seq::<Seq<u8>>::empty()
    } else {
        let n = le_u32(data.subrange(0, 4));
        if 4 + n > data.len() {
            Seq::<Seq<u8>>::empty()
        } else {
            seq![data.subrange(4, 4 + n as int)] + frames(data.subrange(4 + n as int, data.len() as int))
        }
    }
}

proof fn lemma_le_roundtrip(n: nat)
    requires
        n < 0x1_0000_0000,
    ensures
        le_bytes(n).len() == 4,
        le_u32(le_bytes(n)) == n,
{
    let b = le_bytes(n);
    assert(b[0] as nat == n % 256);
    assert(b[1] as nat == (n / 256) % 256);
    assert(b[2] as nat == (n / 65536) % 256);
    assert(b[3] as nat == (n / 16777216) % 256);
    assert((n % 256) + ((n / 256) % 256) * 256 + ((n / 65536) % 256) * 65536 + ((n / 16777216) % 256) * 16777216 == n)
        by (nonlinear_arith)
        requires
            n < 0x1_0000_0000,
    {
        assert(n / 16777216 < 256);
        assert((n / 16777216) % 256 == n / 16777216);
        assert(n == (n / 256) * 256 + n % 256);
        assert(n / 256 == ((n / 256) / 256) * 256 + (n / 256) % 256);
        assert((n / 256) / 256 == n / 65536);
        assert(n / 65536 == ((n / 65536) / 256) * 256 + (n / 65536) % 256);
        assert((n / 65536) / 256 == n / 16777216);
    }
}

/// Reading a frame at the start of some bytes gives back its body, then the frames of
/// what follows it.
pub proof fn lemma_frames_of_frame(body: Seq<u8>, rest: Seq<u8>)
    requires
        body.len() < 0x1_0000_0000,
    ensures
        frames(frame(body) + rest) == seq![body] + frames(rest),
{
    lemma_le_roundtrip(body.len());
    let data = frame(body) + rest;
    assert(data.subrange(0, 4) =~= le_bytes(body.len()));
    assert(data.subrange(4, 4 + body.len() as int) =~= body);
    assert(data.subrange(4 + body.len() as int, data.len() as int) =~= rest);
}

/// Reading back the frames written for some records gives exactly those records, in
/// the order they were written.
pub proof fn law_frames_read_back(bodies: Seq<Seq<u8>>)
    requires
        forall|i: int| 0 <= i < bodies.len() ==> #[trigger] bodies[i].len() < 0x1_0000_0000,
    ensures
        frames(frame_all(bodies)) == bodies,
    decreases bodies.len(),
{
    if bodies.len() == 0 {
        assert(frames(Seq::<u8>::empty()) =~= Seq::<Seq<u8>>::empty());
    } else {
        assert(bodies[0].len() < 0x1_0000_0000);
        let rest = bodies.drop_first();
        assert forall|i: int| 0 <= i < rest.len() implies #[trigger] rest[i].len() < 0x1_0000_0000 by {
            assert(rest[i] == bodies[i + 1]);
        }
        law_frames_read_back(rest);
        lemma_frames_of_frame(bodies[0], frame_all(rest));
        assert(seq![bodies[0]] + rest =~= bodies);
    }
}

/// The frame a record is saved as: its encoded length as four little-endian bytes, then
/// the encoded record.
pub fn frame_record(encoded: &[u8]) -> (r: Vec<u8>)
    requires
        encoded@.len() < 0x1_0000_0000,
    ensures
        r@ == frame(encoded@),
{
    let n: u64 = encoded.len() as u64;
    let mut out: Vec<u8> = Vec::new();
    out.push((n % 256) as u8);
    out.push(((n / 256) % 256) as u8);
    out.push(((n / 65536) % 256) as u8);
    out.push(((n / 16777216) % 256) as u8);
    let mut i: usize = 0;
    while i < encoded.len()
        invariant
            i <= encoded@.len(),
            n == encoded@.len(),
            out@ == le_bytes(n as nat) + encoded@.subrange(0, i as int),
        decreases encoded@.len() - i,
    {
        out.push(encoded[i]);
        i += 1;
        assert(encoded@.subrange(0, i as int) =~= encoded@.subrange(0, i - 1) + seq![encoded@[i - 1]]);
    }
    assert(encoded@.subrange(0, encoded@.len() as int) =~= encoded@);
    out
}

/// The bytes of `data` from `start` to `end`, copied.
fn copy_range(data: &[u8], start: usize, end: usize) -> (r: Vec<u8>)
    requires
        start <= end <= data@.len(),
    ensures
        r@ == data@.subrange(start as int, end as int),
{
    let mut out: Vec<u8> = Vec::new();
    let mut i: usize = start;
    while i < end
        invariant
            start <= i <= end,
            end <= data@.len(),
            out@ == data@.subrange(start as int, i as int),
        decreases end - i,
    {
        out.push(data[i]);
        i += 1;
        assert(data@.subrange(start as int, i as int) =~= data@.subrange(start as int, i - 1) + seq![data@[i - 1]]);
    }
    out
}

/// The records saved in a store head's file: the body of each whole frame, in the order
/// written; a torn final frame is left out.
pub fn split_frames(data: &[u8]) -> (r: Vec<Vec<u8>>)
    ensures
        r@.map_values(|v: Vec<u8>| v@) == frames(data@),
{
    let mut out: Vec<Vec<u8>> = Vec::new();
    let mut i: usize = 0;
    assert(data@.subrange(0, data@.len() as int) =~= data@);
    assert(out@.map_values(|v: Vec<u8>| v@) + frames(data@) =~= frames(data@));
    while data.len() - i >= 4
        invariant
            i <= data@.len(),
            frames(data@) == out@.map_values(|v: Vec<u8>| v@) + frames(data@.subrange(i as int, data@.len() as int)),
        ensures
            frames(data@) == out@.map_values(|v: Vec<u8>| v@),
        decreases data@.len() - i,
    {
        let ghost rest = data@.subrange(i as int, data@.len() as int);
        let n: u64 = data[i] as u64 + data[i + 1] as u64 * 256 + data[i + 2] as u64 * 65536 + data[i + 3] as u64 * 16777216;
        assert(rest.subrange(0, 4) =~= data@.subrange(i as int, i + 4));
        assert(n == le_u32(rest.subrange(0, 4)));
        if n > (data.len() - i - 4) as u64 {
            assert(frames(rest) =~= Seq::<Seq<u8>>::empty());
            assert(out@.map_values(|v: Vec<u8>| v@) + frames(rest) =~= out@.map_values(|v: Vec<u8>| v@));
            break;
        }
        let len: usize = n as usize;
        let body = copy_range(data, i + 4, i + 4 + len);
        assert(rest.subrange(4, 4 + len as int) =~= body@);
        assert(rest.subrange(4 + len as int, rest.len() as int) =~= data@.subrange(i + 4 + len, data@.len() as int));
        let ghost before = out@;
        out.push(body);
        assert(out@.map_values(|v: Vec<u8>| v@) =~= before.map_values(|v: Vec<u8>| v@) + seq![body@]);
        i = i + 4 + len;
    }
    out
}

} // verus!
