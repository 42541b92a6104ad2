use std::marker::PhantomData;
use vstd::prelude::*;

use crate::data::{Draw, Username};

verus! {

// +----------+--------------------------------+
// | len: u32 |          frame payload         |
// +----------+--------------------------------+
/// Largest payload a frame may carry.
pub const MAX_FRAME_LEN: usize = 1048576;

/// Number of bytes of a frame's length prefix.
pub const HEADER_LEN: usize = 4;

/// The four big-endian bytes of `n`.
pub open spec fn be_bytes(n: nat) -> Seq<u8> {
    seq![
        ((n / 16777216) % 256) as u8,
        ((n / 65536) % 256) as u8,
        ((n / 256) % 256) as u8,
        (n % 256) as u8,
    ]
}

/// The number that four big-endian bytes stand for.
pub open spec fn be_value(b: Seq<u8>) -> nat {
    (b[0] as nat) * 16777216 + (b[1] as nat) * 65536 + (b[2] as nat) * 256 + (b[3] as nat)
}

/// The frame that carries `payload`.
pub open spec fn frame(payload: Seq<u8>) -> Seq<u8> {
    be_bytes(payload.len()) + payload
}

/// Why the front of a buffer is no frame.
#[derive(Debug, Clone, Copy, PartialEq, Eq, Structural)]
pub enum FrameError {
    /// the length prefix announces more than `MAX_FRAME_LEN` bytes
    Oversize(usize),
}

/// Frames binary messages with a big-endian `u32` length prefix.
pub struct NetworkMessage<T> {
    marker: PhantomData<T>,
}

/// What the front of `bytes` holds: a whole frame (its payload and the bytes
/// after it), not yet a whole frame, or a length over the limit.
pub open spec fn decoded(bytes: Seq<u8>) -> Result<Option<(Seq<u8>, Seq<u8>)>, FrameError> {
    if bytes.len() < HEADER_LEN {
        Ok(None)
    } else {
        let n = be_value(bytes.subrange(0, 4));
        if n > MAX_FRAME_LEN {
            Err(FrameError::Oversize(n as usize))
        } else if bytes.len() < HEADER_LEN + n {
            Ok(None)
        } else {
            Ok(Some((bytes.subrange(4, 4 + n as int), bytes.subrange(4 + n as int, bytes.len() as int))))
        }
    }
}

proof fn lemma_be_round_trip(n: nat)
    requires
        n < 4294967296,
    ensures
        be_value(be_bytes(n)) == n,
{
    let a = n / 16777216;
    let b = (n / 65536) % 256;
    let c = (n / 256) % 256;
    let d = n % 256;
    assert(a < 256) by (nonlinear_arith)
        requires
            n < 4294967296,
            a == n / 16777216,
    ;
    assert(n == a * 16777216 + b * 65536 + c * 256 + d) by (nonlinear_arith)
        requires
            a == n / 16777216,
            b == (n / 65536) % 256,
            c == (n / 256) % 256,
            d == n % 256,
    ;
    assert(a % 256 == a);
}

proof fn lemma_be_value_bytes(s: Seq<u8>)
    requires
        s.len() == 4,
    ensures
        be_bytes(be_value(s)) =~= s,
        be_value(s) < 4294967296,
{
    let a = s[0] as nat;
    let b = s[1] as nat;
    let c = s[2] as nat;
    let d = s[3] as nat;
    let n = be_value(s);
    assert(n == a * 16777216 + b * 65536 + c * 256 + d);
    assert(n / 16777216 == a && (n / 65536) % 256 == b && (n / 256) % 256 == c && n % 256 == d
        && n < 4294967296) by (nonlinear_arith)
        requires
            n == a * 16777216 + b * 65536 + c * 256 + d,
            a < 256,
            b < 256,
            c < 256,
            d < 256,
    ;
}

/// A frame decodes to its payload and leaves what follows it.
pub proof fn lemma_decode_frame(payload: Seq<u8>, rest: Seq<u8>)
    requires
        payload.len() <= MAX_FRAME_LEN,
    ensures
        decoded(frame(payload) + rest) == Ok::<Option<(Seq<u8>, Seq<u8>)>, FrameError>(
            Some((payload, rest)),
        ),
{
    let bytes = frame(payload) + rest;
    lemma_be_round_trip(payload.len());
    assert(bytes.subrange(0, 4) =~= be_bytes(payload.len()));
    assert(bytes.subrange(4, 4 + payload.len() as int) =~= payload);
    assert(bytes.subrange(4 + payload.len() as int, bytes.len() as int) =~= rest);
}

/// A decoded frame, framed again and followed by what was left, gives the
/// bytes back.
pub proof fn lemma_frame_decoded(bytes: Seq<u8>)
    requires
        decoded(bytes) is Ok,
        decoded(bytes)->Ok_0 is Some,
    ensures
        frame(decoded(bytes)->Ok_0->Some_0.0) + decoded(bytes)->Ok_0->Some_0.1 =~= bytes,
{
    let head = bytes.subrange(0, 4);
    lemma_be_value_bytes(head);
    let n = be_value(head);
    let payload = bytes.subrange(4, 4 + n as int);
    assert(payload.len() == n);
    assert(be_bytes(payload.len()) =~= head);
}

/// The bytes `v[from..to]`.
fn copy_range(v: &Vec<u8>, from: usize, to: usize) -> (r: Vec<u8>)
    requires
        from <= to <= v@.len(),
    ensures
        r@ == v@.subrange(from as int, to as int),
{
    let mut r: Vec<u8> = Vec::new();
    let mut i: usize = from;
    while i < to
        invariant
            from <= i <= to,
            to <= v@.len(),
            r@ == v@.subrange(from as int, i as int),
        decreases to - i,
    {
        r.push(v[i]);
        proof {
            assert(r@ =~= v@.subrange(from as int, i + 1));
        }
        i += 1;
    }
    r
}

impl<T> NetworkMessage<T> {
    pub fn new() -> (r: Self) {
        NetworkMessage { marker: PhantomData }
    }

    /// Append the frame that carries `payload` to `buf`; a payload over
    /// `MAX_FRAME_LEN` bytes is refused and `buf` left as it is.
    pub fn encode(&mut self, payload: &Vec<u8>, buf: &mut Vec<u8>) -> (r: Result<(), FrameError>)
        ensures
            payload@.len() <= MAX_FRAME_LEN ==> r is Ok && final(buf)@ == old(buf)@ + frame(payload@),
            payload@.len() > MAX_FRAME_LEN ==> r == Err::<(), FrameError>(
                FrameError::Oversize(payload@.len() as usize),
            ) && final(buf)@ == old(buf)@,
    {
        let n = payload.len();
        if n > MAX_FRAME_LEN {
            return Err(FrameError::Oversize(n));
        }
        let ghost start = buf@;
        buf.push(((n / 16777216) % 256) as u8);
        buf.push(((n / 65536) % 256) as u8);
        buf.push(((n / 256) % 256) as u8);
        buf.push((n % 256) as u8);
        proof {
            assert(buf@ =~= start + be_bytes(n as nat));
        }
        let mut i: usize = 0;
        while i < n
            invariant
                n == payload@.len(),
                i <= n,
                buf@ == start + be_bytes(n as nat) + payload@.subrange(0, i as int),
            decreases n - i,
        {
            buf.push(payload[i]);
            proof {
                assert(buf@ =~= start + be_bytes(n as nat) + payload@.subrange(0, i + 1));
            }
            i += 1;
        }
        proof {
            assert(payload@.subrange(0, n as int) =~= payload@);
            assert(buf@ =~= start + frame(payload@));
        }
        Ok(())
    }

    /// Take the frame at the front of `bytes`, if it is whole, and give its
    /// payload; leave `bytes` as it is when it holds no whole frame yet, or
    /// when the frame announces more than `MAX_FRAME_LEN` bytes.
    pub fn decode(&mut self, bytes: &mut Vec<u8>) -> (r: Result<Option<Vec<u8>>, FrameError>)
        ensures
            match (r, decoded(old(bytes)@)) {
                (Ok(Some(p)), Ok(Some((q, rest)))) => p@ == q && final(bytes)@ == rest,
                (Ok(None), Ok(None)) => final(bytes)@ == old(bytes)@,
                (Err(e), Err(f)) => e == f && final(bytes)@ == old(bytes)@,
                _ => false,
            },
    {
        let len = bytes.len();
        if len < HEADER_LEN {
            return Ok(None);
        }
        let n: u64 = (bytes[0] as u64) * 16777216 + (bytes[1] as u64) * 65536 + (bytes[2] as u64)
            * 256 + (bytes[3] as u64);
        proof {
            assert(n == be_value(old(bytes)@.subrange(0, 4)));
        }
        if n > MAX_FRAME_LEN as u64 {
            return Err(FrameError::Oversize(n as usize));
        }
        let n = n as usize;
        if len - HEADER_LEN < n {
            return Ok(None);
        }
        let payload = copy_range(bytes, HEADER_LEN, HEADER_LEN + n);
        let rest = copy_range(bytes, HEADER_LEN + n, len);
        *bytes = rest;
        Ok(Some(payload))
    }
}

/// A chat line: either from the system or from a user.
#[derive(Debug, Clone)]
pub enum ChatMessage {
    SystemMsg(String),
    UserMsg(Username, String),
}

pub open spec fn chat_text(m: ChatMessage) -> Seq<char> {
    match m {
        ChatMessage::SystemMsg(t) => t@,
        ChatMessage::UserMsg(_, t) => t@,
    }
}

impl ChatMessage {
    pub fn text(&self) -> (r: &str)
        ensures
            r@ == chat_text(*self),
    {
        match self {
            ChatMessage::SystemMsg(msg) => msg.as_str(),
            ChatMessage::UserMsg(_, msg) => msg.as_str(),
        }
    }

    pub fn is_system(&self) -> (r: bool)
        ensures
            r == (self is SystemMsg),
    {
        match self {
            ChatMessage::SystemMsg(_) => true,
            _ => false,
        }
    }

    pub fn username(&self) -> (r: Option<&Username>)
        ensures
            match *self {
                ChatMessage::UserMsg(u, _) => r == Some(&u),
                ChatMessage::SystemMsg(_) => r is None,
            },
    {
        match self {
            ChatMessage::UserMsg(username, _) => Some(username),
            _ => None,
        }
    }
}

/// Client -> Server, as chat and drawing actions.
#[derive(Debug, Clone)]
pub enum ClientMsg {
    Chat(ChatMessage),
    Draw(Draw),
    JoinRoom(String),
}

/// Server -> Client.
pub type ServerMsg = crate::message::ToClientMsg;

} // verus!
