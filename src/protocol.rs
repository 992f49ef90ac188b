use vstd::prelude::*;
use crate::error::TableError;
use crate::table::GameState;

verus! {

/// A message on the wire. `Join`, `Bet` and `Fold` go from a client to the
/// server; `Update` carries a snapshot of the table from the server to the
/// clients, and `Error` tells one client why its action was refused.
pub enum Message {
    /// A player asks for a seat under this name.
    Join(String),
    /// A player id and the chips it bets.
    Bet(usize, u64),
    /// A player id that folds.
    Fold(usize),
    /// The whole table after an action.
    Update(GameState),
    /// The reason the receiver's last action was refused.
    Error(TableError),
}

/// Bytes in a frame's length header.
pub const HEADER_LEN: usize = 4;

/// Largest payload that a frame can announce.
pub const MAX_PAYLOAD: u64 = 0xffff_ffff;

/// The big-endian four-byte header announcing a payload of `n` bytes.
pub open spec fn length_header(n: nat) -> Seq<u8> {
    seq![
        (n / 0x100_0000) as u8,
        ((n / 0x1_0000) % 0x100) as u8,
        ((n / 0x100) % 0x100) as u8,
        (n % 0x100) as u8,
    ]
}

/// The payload length that the first four bytes of `b` announce.
pub open spec fn header_value(b: Seq<u8>) -> nat {
    (b[0] as nat) * 0x100_0000 + (b[1] as nat) * 0x1_0000 + (b[2] as nat) * 0x100 + (b[3] as nat)
}

/// A frame: the length header, then the payload.
pub open spec fn frame_of(payload: Seq<u8>) -> Seq<u8> {
    length_header(payload.len()) + payload
}

/// What reading one frame from the front of `b` gives: the payload and the
/// bytes after it, or nothing while the frame is incomplete.
pub open spec fn split_frame(b: Seq<u8>) -> Option<(Seq<u8>, Seq<u8>)> {
    if b.len() < 4 || b.len() < 4 + header_value(b) {
        None
    } else {
        let end = 4 + header_value(b);
        Some((b.subrange(4, end as int), b.subrange(end as int, b.len() as int)))
    }
}

proof fn lemma_header_round_trip(n: nat)
    requires
        n <= MAX_PAYLOAD,
    ensures
        length_header(n).len() == 4,
        header_value(length_header(n)) == n,
{
    let h = length_header(n);
    assert(h[0] as nat == n / 0x100_0000);
    assert(h[1] as nat == (n / 0x1_0000) % 0x100);
    assert(h[2] as nat == (n / 0x100) % 0x100);
    assert(h[3] as nat == n % 0x100);
    assert(header_value(h) == n) by (nonlinear_arith)
        requires
            n <= 0xffff_ffff,
            h[0] as nat == n / 0x100_0000,
            h[1] as nat == (n / 0x1_0000) % 0x100,
            h[2] as nat == (n / 0x100) % 0x100,
            h[3] as nat == n % 0x100,
            header_value(h) == (h[0] as nat) * 0x100_0000 + (h[1] as nat) * 0x1_0000 + (h[2] as nat) * 0x100
                + (h[3] as nat),
    {
    }
}

/// Reading a frame back from its encoding, with any bytes after it, gives
/// the payload and leaves exactly those later bytes.
pub proof fn lemma_frame_round_trip(payload: Seq<u8>, rest: Seq<u8>)
    requires
        payload.len() <= MAX_PAYLOAD,
    ensures
        split_frame(frame_of(payload) + rest) == Some((payload, rest)),
{
    lemma_header_round_trip(payload.len());
    let b = frame_of(payload) + rest;
    assert(b.subrange(0, 4) =~= length_header(payload.len()));
    assert(header_value(b) == header_value(length_header(payload.len())));
    assert(b.subrange(4, 4 + payload.len() as int) =~= payload);
    assert(b.subrange(4 + payload.len() as int, b.len() as int) =~= rest);
}

/// Wraps a payload in a frame: its length as four big-endian bytes, then
/// the payload itself.
pub fn encode_frame(payload: &Vec<u8>) -> (r: Vec<u8>)
    requires
        payload@.len() <= MAX_PAYLOAD,
    ensures
        r@ == frame_of(payload@),
{
    let n = payload.len() as u64;
    let mut out: Vec<u8> = Vec::new();
    out.push((n / 0x100_0000) as u8);
    out.push(((n / 0x1_0000) % 0x100) as u8);
    out.push(((n / 0x100) % 0x100) as u8);
    out.push((n % 0x100) as u8);
    let mut i: usize = 0;
    while i < payload.len()
        invariant
            i <= payload@.len(),
            out@ == length_header(payload@.len()) + payload@.take(i as int),
        decreases payload@.len() - i,
    {
        out.push(payload[i]);
        i = i + 1;
        assert(out@ =~= length_header(payload@.len()) + payload@.take(i as int));
    }
    assert(payload@.take(i as int) =~= payload@);
    out
}

/// Collects bytes as they arrive on a connection and hands out whole
/// frames, however the bytes were split or merged by the reads.
pub struct FrameReader {
    buf: Vec<u8>,
}

impl View for FrameReader {
    type V = Seq<u8>;

    closed spec fn view(&self) -> Seq<u8> {
        self.buf@
    }
}

impl FrameReader {
    pub fn new() -> (r: FrameReader)
        ensures
            r@.len() == 0,
    {
        FrameReader { buf: Vec::new() }
    }

    /// Bytes received but not yet handed out.
    pub fn pending(&self) -> (n: usize)
        ensures
            n == self@.len(),
    {
        self.buf.len()
    }

    /// Appends freshly read bytes.
    pub fn push_bytes(&mut self, data: &[u8])
        ensures
            final(self)@ == old(self)@ + data@,
    {
        let ghost b0 = self.buf@;
        let mut i: usize = 0;
        while i < data.len()
            invariant
                i <= data@.len(),
                self.buf@ == b0 + data@.take(i as int),
            decreases data@.len() - i,
        {
            self.buf.push(data[i]);
            i = i + 1;
            assert(self.buf@ =~= b0 + data@.take(i as int));
        }
        assert(data@.take(i as int) =~= data@);
    }

    /// Takes the first complete frame's payload, if one has fully arrived.
    pub fn next_frame(&mut self) -> (r: Option<Vec<u8>>)
        ensures
            match split_frame(old(self)@) {
                None => r.is_none() && final(self)@ == old(self)@,
                Some((payload, rest)) => r.is_some() && r.unwrap()@ == payload && final(self)@ == rest,
            },
    {
        let len = self.buf.len();
        if len < 4 {
            return None;
        }
        let n: u64 = (self.buf[0] as u64) * 0x100_0000 + (self.buf[1] as u64) * 0x1_0000
            + (self.buf[2] as u64) * 0x100 + (self.buf[3] as u64);
        if (len as u64) - 4 < n {
            return None;
        }
        let end = 4 + n as usize;
        let mut payload: Vec<u8> = Vec::new();
        let mut i: usize = 4;
        while i < end
            invariant
                4 <= i <= end,
                end <= self.buf@.len(),
                payload@ == self.buf@.subrange(4, i as int),
            decreases end - i,
        {
            payload.push(self.buf[i]);
            i = i + 1;
            assert(payload@ =~= self.buf@.subrange(4, i as int));
        }
        let mut rest: Vec<u8> = Vec::new();
        let mut j: usize = end;
        while j < len
            invariant
                end <= j <= len,
                len == self.buf@.len(),
                rest@ == self.buf@.subrange(end as int, j as int),
            decreases len - j,
        {
            rest.push(self.buf[j]);
            j = j + 1;
            assert(rest@ =~= self.buf@.subrange(end as int, j as int));
        }
        self.buf = rest;
        Some(payload)
    }
}

} // verus!
