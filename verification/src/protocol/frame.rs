//! Frames: a message's bytes behind their number, which takes four bytes, the lowest first.

use vstd::prelude::*;
use vstd::slice::*;

verus! {

/// The most bytes that a frame may carry.
pub const MAX_FRAME_BYTES: usize = 8_388_608;

/// The peer does not keep to the protocol.
#[derive(Clone, Copy, Debug, PartialEq, Eq, Structural)]
pub enum FrameError {
    /// A frame of more than [`MAX_FRAME_BYTES`].
    TooLarge,
}

/// The four bytes of a frame's length.
pub open spec fn length_bytes(n: nat) -> Seq<u8> {
    seq![
        (n % 256) as u8,
        (n / 256 % 256) as u8,
        (n / 65536 % 256) as u8,
        (n / 16777216 % 256) as u8,
    ]
}

/// The frame that carries `payload`.
pub open spec fn framed(payload: Seq<u8>) -> Seq<u8> {
    length_bytes(payload.len()) + payload
}

/// The length that a frame's first four bytes give.
pub open spec fn length_of(s: Seq<u8>) -> nat {
    (s[0] as nat) + 256 * (s[1] as nat) + 65536 * (s[2] as nat) + 16777216 * (s[3] as nat)
}

/// What stands at the beginning of the bytes that have come in.
pub enum Head {
    /// A frame is not complete yet.
    Partial,
    /// A frame that is too large.
    Oversized,
    /// A frame, and what comes behind it.
    Complete(Seq<u8>, Seq<u8>),
}

/// What stands at the beginning of `s`.
pub open spec fn head(s: Seq<u8>) -> Head {
    if s.len() < 4 {
        Head::Partial
    } else if length_of(s) > MAX_FRAME_BYTES {
        Head::Oversized
    } else if s.len() < 4 + length_of(s) {
        Head::Partial
    } else {
        Head::Complete(s.subrange(4, 4 + length_of(s) as int), s.skip(4 + length_of(s) as int))
    }
}

/// The payloads of the complete frames at the beginning of `s`, in order.
pub open spec fn payloads(s: Seq<u8>) -> Seq<Seq<u8>>
    decreases s.len(),
{
    match head(s) {
        Head::Complete(p, rest) => if rest.len() < s.len() {
            seq![p] + payloads(rest)
        } else {
            Seq::empty()
        },
        _ => Seq::empty(),
    }
}

/// The frames of the payloads, one behind the other.
pub open spec fn stream(ps: Seq<Seq<u8>>) -> Seq<u8>
    decreases ps.len(),
{
    if ps.len() == 0 {
        Seq::empty()
    } else {
        framed(ps[0]) + stream(ps.drop_first())
    }
}

/// Each payload fits into a frame.
pub open spec fn all_fit(ps: Seq<Seq<u8>>) -> bool {
    forall|i: int| 0 <= i < ps.len() ==> (#[trigger] ps[i]).len() <= MAX_FRAME_BYTES
}

/// A frame that was written is read back: the payload comes out, and nothing behind it is touched.
pub proof fn lemma_frame_round_trip(payload: Seq<u8>, rest: Seq<u8>)
    requires
        payload.len() <= MAX_FRAME_BYTES,
    ensures
        head(framed(payload) + rest) == Head::Complete(payload, rest),
{
    let n = payload.len();
    let s = framed(payload) + rest;
    assert(length_bytes(n).len() == 4);
    assert(s[0] == (n % 256) as u8);
    assert(s[1] == (n / 256 % 256) as u8);
    assert(s[2] == (n / 65536 % 256) as u8);
    assert(s[3] == (n / 16777216 % 256) as u8);
    assert(length_of(s) == n);
    assert(s.subrange(4, 4 + n as int) =~= payload);
    assert(s.skip(4 + n as int) =~= rest);
}

/// Whatever was written as frames one behind the other is read back, message by message.
pub proof fn lemma_stream_round_trip(ps: Seq<Seq<u8>>)
    requires
        all_fit(ps),
    ensures
        payloads(stream(ps)) == ps,
    decreases ps.len(),
{
    if ps.len() > 0 {
        let rest = ps.drop_first();
        assert forall|i: int| 0 <= i < rest.len() implies (#[trigger] rest[i]).len()
            <= MAX_FRAME_BYTES by {
            assert(rest[i] == ps[i + 1]);
        }
        lemma_stream_round_trip(rest);
        lemma_frame_round_trip(ps[0], stream(rest));
        assert(seq![ps[0]] + rest =~= ps);
    } else {
        assert(payloads(stream(ps)) =~= ps);
    }
}

/// A frame that is not complete stays so however its beginning is cut: bytes that are still to come
/// change nothing of the frames that are complete.
pub proof fn lemma_more_bytes(s: Seq<u8>, more: Seq<u8>)
    ensures
        head(s) matches Head::Complete(p, rest) ==> head(s + more) == Head::Complete(
            p,
            rest + more,
        ),
        head(s) is Oversized ==> head(s + more) is Oversized,
{
    if s.len() >= 4 {
        let t = s + more;
        assert(t[0] == s[0] && t[1] == s[1] && t[2] == s[2] && t[3] == s[3]);
        let n = length_of(s) as int;
        if s.len() >= 4 + n {
            assert(t.subrange(4, 4 + n) =~= s.subrange(4, 4 + n));
            assert(t.skip(4 + n) =~= s.skip(4 + n) + more);
        }
    }
}

/// The frame that carries `payload`; an error where it is too large for one.
pub fn encode_frame(payload: &Vec<u8>) -> (r: Result<Vec<u8>, FrameError>)
    ensures
        match r {
            Ok(f) => payload@.len() <= MAX_FRAME_BYTES && f@ == framed(payload@),
            Err(e) => payload@.len() > MAX_FRAME_BYTES && e == FrameError::TooLarge,
        },
{
    let n: usize = payload.len();
    if n > MAX_FRAME_BYTES {
        return Err(FrameError::TooLarge);
    }
    let mut out: Vec<u8> = Vec::new();
    out.push((n % 256) as u8);
    out.push((n / 256 % 256) as u8);
    out.push((n / 65536 % 256) as u8);
    out.push((n / 16777216 % 256) as u8);
    assert(out@ =~= length_bytes(n as nat));
    let mut i: usize = 0;
    while i < n
        invariant
            i <= n == payload@.len(),
            out@ == length_bytes(n as nat) + payload@.take(i as int),
        decreases n - i,
    {
        out.push(payload[i]);
        i += 1;
        assert(out@ =~= length_bytes(n as nat) + payload@.take(i as int));
    }
    assert(payload@.take(n as int) =~= payload@);
    Ok(out)
}

/// Takes in bytes as they come, and hands out the frames that they make up.
#[derive(Debug, PartialEq)]
pub struct FrameDecoder {
    buf: Vec<u8>,
}

impl FrameDecoder {
    /// The bytes that no frame was made of yet.
    pub closed spec fn pending(self) -> Seq<u8> {
        self.buf@
    }

    /// A decoder that no bytes came to yet.
    pub fn new() -> (d: FrameDecoder)
        ensures
            d.pending() == Seq::<u8>::empty(),
    {
        FrameDecoder { buf: Vec::new() }
    }

    /// The length that the pending bytes begin with, if they do.
    fn length(&self) -> (r: Option<usize>)
        ensures
            match r {
                Some(n) => self.pending().len() >= 4 && n == length_of(self.pending()),
                None => self.pending().len() < 4,
            },
    {
        if self.buf.len() < 4 {
            return None;
        }
        Some(
            self.buf[0] as usize + 256 * self.buf[1] as usize + 65536 * self.buf[2] as usize
                + 16777216 * self.buf[3] as usize,
        )
    }

    /// Takes in the first `n` bytes of `bytes`. An error where a frame that is too large begins the
    /// pending bytes.
    pub fn extend(&mut self, bytes: &[u8], n: usize) -> (r: Result<(), FrameError>)
        requires
            n <= bytes@.len(),
        ensures
            final(self).pending() == old(self).pending() + bytes@.take(n as int),
            match r {
                Ok(_) => !(head(final(self).pending()) is Oversized),
                Err(e) => head(final(self).pending()) is Oversized && e == FrameError::TooLarge,
            },
    {
        let ghost was = self.buf@;
        let mut i: usize = 0;
        assert(was + bytes@.take(0) =~= was);
        while i < n
            invariant
                i <= n <= bytes@.len(),
                self.buf@ == was + bytes@.take(i as int),
            decreases n - i,
        {
            self.buf.push(bytes[i]);
            i += 1;
            assert(self.buf@ =~= was + bytes@.take(i as int));
        }
        match self.length() {
            Some(k) if k > MAX_FRAME_BYTES => Err(FrameError::TooLarge),
            _ => Ok(()),
        }
    }

    /// The next frame's payload: `None` where no frame is complete yet, an error where the frame is
    /// too large. Only a frame that was handed out is taken from the pending bytes.
    pub fn pop(&mut self) -> (r: Option<Result<Vec<u8>, FrameError>>)
        ensures
            match head(old(self).pending()) {
                Head::Partial => r is None && final(self).pending() == old(self).pending(),
                Head::Oversized => r == Some(Err::<Vec<u8>, FrameError>(FrameError::TooLarge))
                    && final(self).pending() == old(self).pending(),
                Head::Complete(p, rest) => {
                    &&& r matches Some(Ok(v))
                    &&& v@ == p
                    &&& final(self).pending() == rest
                },
            },
    {
        let n: usize = match self.length() {
            Some(n) => n,
            None => {
                return None;
            },
        };
        if n > MAX_FRAME_BYTES {
            return Some(Err(FrameError::TooLarge));
        }
        let all: usize = self.buf.len();
        if all - 4 < n {
            return None;
        }
        let mut out: Vec<u8> = Vec::new();
        let mut rest: Vec<u8> = Vec::new();
        let mut i: usize = 4;
        assert(out@ =~= self.buf@.subrange(4, 4));
        while i < 4 + n
            invariant
                4 <= i <= 4 + n <= all == self.buf@.len(),
                out@ == self.buf@.subrange(4, i as int),
            decreases 4 + n - i,
        {
            out.push(self.buf[i]);
            i += 1;
            assert(out@ =~= self.buf@.subrange(4, i as int));
        }
        assert(rest@ =~= self.buf@.subrange(4 + n, i as int));
        while i < all
            invariant
                4 + n <= i <= all == self.buf@.len(),
                rest@ == self.buf@.subrange(4 + n, i as int),
            decreases all - i,
        {
            rest.push(self.buf[i]);
            i += 1;
            assert(rest@ =~= self.buf@.subrange(4 + n, i as int));
        }
        assert(rest@ =~= self.buf@.skip(4 + n));
        self.buf = rest;
        Some(Ok(out))
    }
}

/// The length is written with its lowest byte first.
pub proof fn lemma_lowest_byte_first(n: nat, d: u8)
    ensures
        length_bytes(0) == seq![0u8, 0, 0, 0],
        length_bytes(256 * n + d as nat)[0] == d,
        length_bytes(256 * n + d as nat).subrange(1, 4) == length_bytes(n).subrange(0, 3),
        length_bytes(n).len() == 4,
{
    let m = 256 * n + d as nat;
    assert(m % 256 == d && m / 256 == n);
    assert(m / 65536 == n / 256) by (nonlinear_arith)
        requires
            m == 256 * n + d as nat,
            d < 256,
    ;
    assert(m / 16777216 == n / 65536) by (nonlinear_arith)
        requires
            m == 256 * n + d as nat,
            d < 256,
    ;
    assert(length_bytes(m).subrange(1, 4) =~= length_bytes(n).subrange(0, 3));
    assert(length_bytes(0) =~= seq![0u8, 0, 0, 0]);
}

/// Behind a length of at most eight mebibytes a frame is complete as soon as so many bytes have come;
/// a greater length is refused before any of them, and less than four bytes are no length.
pub proof fn lemma_when_a_frame_is_complete(n: nat, rest: Seq<u8>, few: Seq<u8>)
    requires
        n < 0x1_0000_0000,
        few.len() < 4,
    ensures
        head(few) is Partial,
        n > 8 * 1024 * 1024 ==> head(length_bytes(n) + rest) is Oversized,
        n <= 8 * 1024 * 1024 && rest.len() < n ==> head(length_bytes(n) + rest) is Partial,
        n <= 8 * 1024 * 1024 && rest.len() >= n ==> head(length_bytes(n) + rest) == Head::Complete(
            rest.take(n as int),
            rest.skip(n as int),
        ),
{
    let s = length_bytes(n) + rest;
    assert(s[0] == (n % 256) as u8);
    assert(s[1] == (n / 256 % 256) as u8);
    assert(s[2] == (n / 65536 % 256) as u8);
    assert(s[3] == (n / 16777216 % 256) as u8);
    assert(length_of(s) == n);
    if n <= 8 * 1024 * 1024 && rest.len() >= n {
        assert(s.subrange(4, 4 + n as int) =~= rest.take(n as int));
        assert(s.skip(4 + n as int) =~= rest.skip(n as int));
    }
}

/// What is sent is received: a payload that is put into a frame, and whose bytes come to a decoder that
/// has none pending, is handed out, and nothing is left of it; a payload that is too large makes no frame.
pub proof fn lemma_sent_is_received(
    payload: &Vec<u8>,
    f: Result<Vec<u8>, FrameError>,
    a: &mut FrameDecoder,
    bytes: &[u8],
    n: usize,
    x: Result<(), FrameError>,
    b: &mut FrameDecoder,
    y: Option<Result<Vec<u8>, FrameError>>,
)
    requires
        call_ensures(encode_frame, (payload,), f),
        f is Ok,
        call_ensures(FrameDecoder::extend, (a, bytes, n), x),
        bytes@ == f->Ok_0@,
        n == bytes@.len(),
        old(a).pending().len() == 0,
        call_ensures(FrameDecoder::pop, (b,), y),
        *final(a) == *old(b),
    ensures
        x is Ok,
        y is Some && y->0 is Ok && (y->0)->Ok_0@ == payload@,
        final(b).pending().len() == 0,
{
    let p = payload@;
    lemma_frame_round_trip(p, Seq::empty());
    assert(framed(p) + Seq::<u8>::empty() =~= framed(p));
    assert(bytes@.take(n as int) =~= bytes@);
    assert(old(a).pending() + bytes@ =~= framed(p));
}

/// A payload of up to eight mebibytes fits into a frame, and no other does.
pub proof fn lemma_what_fits(payload: &Vec<u8>, f: Result<Vec<u8>, FrameError>)
    requires
        call_ensures(encode_frame, (payload,), f),
    ensures
        f is Ok <==> payload@.len() <= 8 * 1024 * 1024,
        f matches Ok(v) ==> v@.len() == payload@.len() + 4 && v@.skip(4) == payload@,
{
    if let Ok(v) = f {
        assert(v@.skip(4) =~= payload@);
    }
}

} // verus!
