//! Frame sync + parse — the pure wire layer.
//!
//! Each MCU streams fixed 8-byte frames continuously over an RX-only UART:
//! `0xFF 0x01 <BTNmask> Xhi Xlo Yhi Ylo 0xFE`, with 12-bit stick samples.
//! [`FrameScanner`] is a resynchronising byte-stream framer: feed it whatever a read returned and
//! it yields whole, validated frames, holding any partial tail across calls.
use vstd::prelude::*;

verus! {

/// The `0xFF` start-of-frame marker.
pub const SOF: u8 = 0xFF;
/// The `0x01` fixed second byte.
pub const HDR1: u8 = 0x01;
/// The `0xFE` end-of-frame marker.
pub const EOF: u8 = 0xFE;
/// Total frame length in bytes.
pub const FRAME_LEN: usize = 8;

/// One decoded gamepad frame from a single UART. `x`/`y` are already masked to 12 bits.
#[derive(Clone, Copy, Debug, PartialEq, Eq, Structural)]
pub struct Frame {
    /// The `byte2` button bitmask (meaning is per-UART).
    pub buttons: u8,
    /// 12-bit stick X sample (`0..=4095`).
    pub x: u16,
    /// 12-bit stick Y sample (`0..=4095`).
    pub y: u16,
}

/// The 12-bit sample carried by a `(hi, lo)` byte pair: the high nibble of `hi` is discarded.
pub open spec fn word12(hi: u8, lo: u8) -> u16 {
    ((hi as int % 16) * 256 + lo as int) as u16
}

/// The frame an 8-byte window encodes.
pub open spec fn frame_of(w: Seq<u8>) -> Frame {
    Frame { buttons: w[2], x: word12(w[3], w[4]), y: word12(w[5], w[6]) }
}

/// Whether the first eight bytes of `s` form a valid frame (`FF 01 .. .. .. .. .. FE`).
pub open spec fn is_frame_at_start(s: Seq<u8>) -> bool {
    s.len() >= 8 && s[0] == 0xFF && s[1] == 0x01 && s[7] == 0xFE
}

/// The stream semantics of the framer: the frames a byte stream yields, and the tail it holds
/// back. Garbage before a `0xFF` is dropped; a `0xFF` that does not start a valid frame is dropped
/// on its own; a `0xFF` with fewer than eight bytes behind it is held as the tail.
pub open spec fn scan(s: Seq<u8>) -> (Seq<Frame>, Seq<u8>)
    decreases s.len(),
{
    if s.len() == 0 {
        (Seq::empty(), Seq::empty())
    } else if s[0] != 0xFF {
        scan(s.drop_first())
    } else if s.len() < 8 {
        (Seq::empty(), s)
    } else if s[1] == 0x01 && s[7] == 0xFE {
        let r = scan(s.skip(8));
        (seq![frame_of(s)] + r.0, r.1)
    } else {
        scan(s.drop_first())
    }
}

/// A held tail is empty or an incomplete candidate starting at a start marker.
pub open spec fn is_tail(t: Seq<u8>) -> bool {
    t.len() < 8 && (t.len() > 0 ==> t[0] == 0xFF)
}

proof fn lemma_word12(hi: u8, lo: u8)
    ensures
        ((((hi as u16) << 8u16) | (lo as u16)) & 0x0FFFu16) == word12(hi, lo),
{
    assert(((((hi as u16) << 8u16) | (lo as u16)) & 0x0FFFu16) == ((hi % 16) as u16) * 256 + (
    lo as u16)) by (bit_vector);
}

/// The tail a scan holds back is always a well-formed tail.
pub proof fn lemma_scan_tail(s: Seq<u8>)
    ensures
        is_tail(scan(s).1),
    decreases s.len(),
{
    if s.len() == 0 {
    } else if s[0] != 0xFF {
        lemma_scan_tail(s.drop_first());
    } else if s.len() < 8 {
    } else if s[1] == 0x01 && s[7] == 0xFE {
        lemma_scan_tail(s.skip(8));
    } else {
        lemma_scan_tail(s.drop_first());
    }
}

/// A held tail scans to no frames and itself.
pub proof fn lemma_scan_of_tail(t: Seq<u8>)
    requires
        is_tail(t),
    ensures
        scan(t) == (Seq::<Frame>::empty(), t),
{
}

/// Every frame in `fs` carries 12-bit stick samples.
pub open spec fn frames_12bit(fs: Seq<Frame>) -> bool {
    forall|i: int| 0 <= i < fs.len() ==> #[trigger] fs[i].x <= 4095 && fs[i].y <= 4095
}

proof fn lemma_frame_of_12bit(w: Seq<u8>)
    requires
        w.len() >= 8,
    ensures
        frame_of(w).x <= 4095,
        frame_of(w).y <= 4095,
{
    assert(w[3] as int % 16 <= 15);
    assert(w[5] as int % 16 <= 15);
    assert((w[3] as int % 16) * 256 <= 15 * 256) by (nonlinear_arith)
        requires
            w[3] as int % 16 <= 15,
            w[3] as int % 16 >= 0,
    ;
    assert((w[5] as int % 16) * 256 <= 15 * 256) by (nonlinear_arith)
        requires
            w[5] as int % 16 <= 15,
            w[5] as int % 16 >= 0,
    ;
}

/// Every frame a scan yields carries 12-bit stick samples.
pub proof fn lemma_scan_frames_are_12_bit(s: Seq<u8>)
    ensures
        frames_12bit(scan(s).0),
    decreases s.len(),
{
    if s.len() == 0 {
    } else if s[0] != 0xFF {
        lemma_scan_frames_are_12_bit(s.drop_first());
    } else if s.len() < 8 {
    } else if s[1] == 0x01 && s[7] == 0xFE {
        lemma_scan_frames_are_12_bit(s.skip(8));
        lemma_frame_of_12bit(s);
        let r = scan(s.skip(8));
        let all = seq![frame_of(s)] + r.0;
        assert forall|i: int| 0 <= i < all.len() implies #[trigger] all[i].x <= 4095 && all[i].y
            <= 4095 by {
            if i > 0 {
                assert(all[i] == r.0[i - 1]);
            }
        }
    } else {
        lemma_scan_frames_are_12_bit(s.drop_first());
    }
}

/// Chunking invariance: scanning `a + b` yields the frames of `a`, then the frames of the tail
/// of `a` followed by `b`; and the same final tail. This is what makes feeding a stream in
/// arbitrary read-sized pieces equivalent to feeding it whole.
pub proof fn lemma_scan_split(a: Seq<u8>, b: Seq<u8>)
    ensures
        scan(a + b).0 == scan(a).0 + scan(scan(a).1 + b).0,
        scan(a + b).1 == scan(scan(a).1 + b).1,
    decreases a.len(),
{
    if a.len() == 0 {
        assert(a + b =~= b);
        assert(scan(a).1 + b =~= b);
        assert(scan(a).0 + scan(b).0 =~= scan(b).0);
    } else if a[0] != 0xFF {
        assert((a + b).drop_first() =~= a.drop_first() + b);
        lemma_scan_split(a.drop_first(), b);
    } else if a.len() < 8 {
        assert(scan(a).0 + scan(a + b).0 =~= scan(a + b).0);
    } else if a[1] == 0x01 && a[7] == 0xFE {
        assert((a + b).skip(8) =~= a.skip(8) + b);
        assert(frame_of(a + b) == frame_of(a));
        lemma_scan_split(a.skip(8), b);
        let r = scan(a.skip(8));
        assert(seq![frame_of(a)] + r.0 + scan(r.1 + b).0 =~= seq![frame_of(a)] + (r.0 + scan(
            r.1 + b,
        ).0));
    } else {
        assert((a + b).drop_first() =~= a.drop_first() + b);
        lemma_scan_split(a.drop_first(), b);
    }
}

/// Pushing a stream in two pieces yields exactly the frames of pushing it whole.
pub proof fn law_two_pushes_equal_one(c1: Seq<u8>, c2: Seq<u8>)
    ensures
        scan(c1).0 + scan(scan(c1).1 + c2).0 == scan(c1 + c2).0,
        scan(scan(c1).1 + c2).1 == scan(c1 + c2).1,
{
    lemma_scan_split(c1, c2);
}

/// The chunks of a stream laid end to end.
pub open spec fn concat(chunks: Seq<Seq<u8>>) -> Seq<u8>
    decreases chunks.len(),
{
    if chunks.len() == 0 {
        Seq::empty()
    } else {
        chunks[0] + concat(chunks.drop_first())
    }
}

/// The frames and the final carry of pushing `chunks` one after another onto a scanner holding
/// `pending` (each push scans what is held plus the chunk, as [`FrameScanner::push`] does).
pub open spec fn pushes(pending: Seq<u8>, chunks: Seq<Seq<u8>>) -> (Seq<Frame>, Seq<u8>)
    decreases chunks.len(),
{
    if chunks.len() == 0 {
        (Seq::empty(), pending)
    } else {
        let first = scan(pending + chunks[0]);
        let rest = pushes(first.1, chunks.drop_first());
        (first.0 + rest.0, rest.1)
    }
}

/// Pushing a stream in any number of pieces yields exactly the frames, and leaves exactly the
/// carry, of pushing it whole; and every frame pushed carries 12-bit stick samples.
pub proof fn law_pushes_equal_one(pending: Seq<u8>, chunks: Seq<Seq<u8>>)
    requires
        is_tail(pending),
    ensures
        pushes(pending, chunks) == scan(pending + concat(chunks)),
        frames_12bit(pushes(pending, chunks).0),
    decreases chunks.len(),
{
    lemma_scan_frames_are_12_bit(pending + concat(chunks));
    if chunks.len() == 0 {
        assert(pending + concat(chunks) =~= pending);
        lemma_scan_of_tail(pending);
    } else {
        let a = pending + chunks[0];
        let b = concat(chunks.drop_first());
        lemma_scan_tail(a);
        law_pushes_equal_one(scan(a).1, chunks.drop_first());
        lemma_scan_split(a, b);
        assert(pending + concat(chunks) =~= a + b);
    }
}

impl Frame {
    /// Parse an exactly-eight-byte window already validated to start `FF 01` and end `FE`.
    /// `x`/`y` are masked to 12 bits so a stray high nibble can never inflate an axis.
    fn from_bytes(b: &[u8]) -> (f: Frame)
        requires
            b@.len() == 8,
        ensures
            f == frame_of(b@),
    {
        let x = (((b[3] as u16) << 8u16) | b[4] as u16) & 0x0FFFu16;
        let y = (((b[5] as u16) << 8u16) | b[6] as u16) & 0x0FFFu16;
        proof {
            lemma_word12(b@[3], b@[4]);
            lemma_word12(b@[5], b@[6]);
        }
        Frame { buttons: b[2], x, y }
    }
}

/// A resynchronising framer holding the bytes not yet consumed into a whole frame.
pub struct FrameScanner {
    buf: Vec<u8>,
}

impl FrameScanner {
    /// The bytes currently held back awaiting the rest of a frame.
    pub closed spec fn pending(&self) -> Seq<u8> {
        self.buf@
    }

    /// The held bytes are always an incomplete candidate frame (or nothing).
    pub closed spec fn wf(&self) -> bool {
        is_tail(self.buf@)
    }

    /// A fresh scanner with an empty carry buffer.
    pub fn new() -> (s: FrameScanner)
        ensures
            s.wf(),
            s.pending() == Seq::<u8>::empty(),
    {
        FrameScanner { buf: Vec::with_capacity(FRAME_LEN * 4) }
    }

    /// Append `chunk` and return every whole frame now available (in stream order).
    pub fn push(&mut self, chunk: &[u8]) -> (out: Vec<Frame>)
        requires
            old(self).wf(),
        ensures
            final(self).wf(),
            out@ == scan(old(self).pending() + chunk@).0,
            final(self).pending() == scan(old(self).pending() + chunk@).1,
            forall|i: int| 0 <= i < out@.len() ==> #[trigger] out@[i].x <= 4095 && out@[i].y <= 4095,
    {
        let ghost s0 = self.buf@ + chunk@;
        let mut k: usize = 0;
        while k < chunk.len()
            invariant
                k <= chunk@.len(),
                self.buf@ == old(self).buf@ + chunk@.subrange(0, k as int),
            decreases chunk@.len() - k,
        {
            self.buf.push(chunk[k]);
            k += 1;
            proof {
                assert(chunk@.subrange(0, k as int) =~= chunk@.subrange(0, k - 1) + seq![
                    chunk@[k - 1],
                ]);
            }
        }
        assert(chunk@.subrange(0, chunk@.len() as int) =~= chunk@);
        let mut out: Vec<Frame> = Vec::new();
        let mut start: usize = 0;
        let n = self.buf.len();
        assert(s0.skip(0) =~= s0);
        assert(out@ + scan(s0).0 =~= scan(s0).0);
        loop
            invariant_except_break
                self.buf@ == s0,
                n == s0.len(),
                start <= n,
                scan(s0).0 == out@ + scan(s0.skip(start as int)).0,
                scan(s0).1 == scan(s0.skip(start as int)).1,
            ensures
                self.buf@ == s0,
                n == s0.len(),
                start <= n,
                scan(s0).0 == out@,
                scan(s0).1 == s0.skip(start as int),
            decreases n - start,
        {
            let ghost top = start;
            // Skip to the next 0xFF start marker; drop any garbage before it.
            while start < n && self.buf[start] != SOF
                invariant
                    top <= start,
                    self.buf@ == s0,
                    n == s0.len(),
                    start <= n,
                    scan(s0).0 == out@ + scan(s0.skip(start as int)).0,
                    scan(s0).1 == scan(s0.skip(start as int)).1,
                decreases n - start,
            {
                assert(s0.skip(start as int).drop_first() =~= s0.skip(start + 1));
                start += 1;
            }
            if start == n {
                assert(s0.skip(start as int) =~= Seq::<u8>::empty());
                assert(out@ + Seq::<Frame>::empty() =~= out@);
                break;
            }
            // Not enough bytes yet for a whole frame: keep them and wait for more.
            if n - start < FRAME_LEN {
                assert(out@ + Seq::<Frame>::empty() =~= out@);
                break;
            }
            let cand = &self.buf.as_slice()[start..start + FRAME_LEN];
            assert(cand@ =~= s0.skip(start as int).subrange(0, 8));
            if cand[1] == HDR1 && cand[FRAME_LEN - 1] == EOF {
                let f = Frame::from_bytes(cand);
                proof {
                    let w = s0.skip(start as int);
                    assert(frame_of(cand@) == frame_of(w));
                    assert(w.skip(8) =~= s0.skip(start + 8));
                    assert(out@.push(f) + scan(w.skip(8)).0 =~= out@ + (seq![f] + scan(
                        w.skip(8),
                    ).0));
                }
                out.push(f);
                start += FRAME_LEN;
            } else {
                // A 0xFF that is not a real header: drop just it and rescan from the next byte.
                assert(s0.skip(start as int).drop_first() =~= s0.skip(start + 1));
                start += 1;
            }
        }
        // Retain only the unconsumed tail.
        let tail = self.buf.split_off(start);
        self.buf = tail;
        proof {
            lemma_scan_tail(s0);
            lemma_scan_frames_are_12_bit(s0);
        }
        out
    }
}

} // verus!
