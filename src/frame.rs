use vstd::prelude::*;

verus! {

/// Largest message a two-byte length prefix can carry.
pub const MAX_FRAME: usize = 65535;

/// The length a two-byte big-endian prefix encodes.
pub open spec fn be16(hi: u8, lo: u8) -> nat {
    (hi as nat) * 256 + (lo as nat)
}

/// A message framed for a stream: its length as two big-endian bytes, then
/// the message.
pub open spec fn framed(msg: Seq<u8>) -> Seq<u8> {
    seq![(msg.len() / 256) as u8, (msg.len() % 256) as u8] + msg
}

/// The length of the first message in `buf`, if all of it has arrived.
pub open spec fn complete_len(buf: Seq<u8>) -> Option<nat> {
    if buf.len() >= 2 && buf.len() >= 2 + be16(buf[0], buf[1]) {
        Some(be16(buf[0], buf[1]))
    } else {
        None
    }
}

/// What the start of a stream buffer holds.
#[derive(Clone, Copy, PartialEq, Eq, Structural, Debug)]
pub enum Frame {
    /// The first message has not fully arrived.
    Incomplete,
    /// The first message is complete; it has this many bytes after the prefix.
    Complete(usize),
}

/// Reads the first message's frame from a stream buffer.
pub fn parse_frame(buf: &[u8]) -> (r: Frame)
    ensures
        complete_len(buf@) is None ==> r == Frame::Incomplete,
        complete_len(buf@) matches Some(n) ==> r == Frame::Complete(n as usize),
{
    if buf.len() < 2 {
        return Frame::Incomplete;
    }
    let n = (buf[0] as usize) * 256 + buf[1] as usize;
    if buf.len() - 2 >= n {
        Frame::Complete(n)
    } else {
        Frame::Incomplete
    }
}

/// Frames a message for a stream; a message longer than the prefix can
/// express has no frame.
pub fn encode_frame(msg: &[u8]) -> (r: Option<Vec<u8>>)
    ensures
        r is None <==> msg@.len() > MAX_FRAME,
        r matches Some(v) ==> v@ == framed(msg@),
{
    if msg.len() > MAX_FRAME {
        return None;
    }
    let mut out: Vec<u8> = Vec::new();
    out.push((msg.len() / 256) as u8);
    out.push((msg.len() % 256) as u8);
    let mut i: usize = 0;
    while i < msg.len()
        invariant
            0 <= i <= msg@.len(),
            msg@.len() <= MAX_FRAME,
            out@ == seq![(msg@.len() / 256) as u8, (msg@.len() % 256) as u8] + msg@.subrange(
                0,
                i as int,
            ),
        decreases msg@.len() - i,
    {
        out.push(msg[i]);
        assert(msg@.subrange(0, i + 1) == msg@.subrange(0, i as int).push(msg@[i as int]));
        i = i + 1;
    }
    assert(msg@ == msg@.subrange(0, msg@.len() as int));
    Some(out)
}

/// A framed message reads back whole: the frame is complete with the
/// message's length, and the bytes after the prefix are the message.
pub proof fn lemma_frame_round_trip(msg: Seq<u8>)
    requires
        msg.len() <= MAX_FRAME,
    ensures
        complete_len(framed(msg)) == Some(msg.len()),
        framed(msg).subrange(2, 2 + msg.len() as int) == msg,
{
    let f = framed(msg);
    assert(f[0] == (msg.len() / 256) as u8);
    assert(f[1] == (msg.len() % 256) as u8);
    assert(be16(f[0], f[1]) == msg.len());
    assert(f.subrange(2, 2 + msg.len() as int) =~= msg);
}

} // verus!
