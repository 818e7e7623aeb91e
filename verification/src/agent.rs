//! The agent protocol: messages that carry a version, each sent as one frame. A
//! frame is the length of its body in four bytes, the most significant first,
//! and the body.

use vstd::prelude::*;

verus! {

/// The version that this end speaks.
pub const VERSION: u32 = 1;

/// The longest body of a frame, in bytes.
pub const MAX_FRAME: usize = 1048576;

/// A request to the agent.
#[derive(Clone, Copy, Debug, PartialEq, Eq, Structural)]
pub struct Request {
    pub id: u64,
    pub version: u32,
    pub method: Method,
}

/// What a request asks for.
#[derive(Clone, Copy, Debug, PartialEq, Eq, Structural)]
pub enum Method {
    Hello,
    SystemInfo,
    Cancel { request_id: u64 },
}

/// The answer to a request.
#[derive(Debug, PartialEq, Eq)]
pub struct Response {
    pub id: u64,
    pub version: u32,
    /// The result, as JSON text.
    pub result: Option<String>,
    pub error: Option<String>,
}

/// Why a request is not sent.
#[derive(Clone, Copy, Debug, PartialEq, Eq, Structural)]
pub enum FrameError {
    /// It speaks another version.
    Version,
    /// Its body is too long.
    TooLong,
}

impl FrameError {
    /// The error in words.
    pub fn message(self) -> (out: &'static str)
        ensures
            out@ == (match self {
                FrameError::Version => "Unsupported Agent version"@,
                FrameError::TooLong => "Agent frame exceeds limit"@,
            }),
    {
        match self {
            FrameError::Version => "Unsupported Agent version",
            FrameError::TooLong => "Agent frame exceeds limit",
        }
    }
}

/// A length as four bytes, the most significant first.
pub open spec fn length_prefix(n: int) -> Seq<u8> {
    seq![
        (n / 0x100_0000 % 256) as u8,
        (n / 0x1_0000 % 256) as u8,
        (n / 0x100 % 256) as u8,
        (n % 256) as u8,
    ]
}

/// The frame of a body.
pub open spec fn framed(body: Seq<u8>) -> Seq<u8> {
    length_prefix(body.len() as int) + body
}

/// The frame of a request whose body is given: its version must be the one that
/// this end speaks, and the body may not be too long.
pub fn encode(request: &Request, body: &[u8]) -> (out: Result<Vec<u8>, FrameError>)
    ensures
        match out {
            Ok(frame) => request.version == VERSION && body@.len() <= MAX_FRAME && frame@ == framed(
                body@,
            ),
            Err(FrameError::Version) => request.version != VERSION,
            Err(FrameError::TooLong) => request.version == VERSION && body@.len() > MAX_FRAME,
        },
{
    if request.version != VERSION {
        return Err(FrameError::Version);
    }
    let n: usize = body.len();
    if n > MAX_FRAME {
        return Err(FrameError::TooLong);
    }
    let mut frame: Vec<u8> = Vec::new();
    frame.push((n / 0x100_0000 % 256) as u8);
    frame.push((n / 0x1_0000 % 256) as u8);
    frame.push((n / 0x100 % 256) as u8);
    frame.push((n % 256) as u8);
    assert(frame@ =~= length_prefix(n as int));
    frame.extend_from_slice(body);
    assert(frame@ =~= framed(body@));
    Ok(frame)
}

/// A stream of frames can be read only one way: where a frame starts, its length
/// says which bytes are its body.
pub proof fn law_frames_are_told_apart(a: Seq<u8>, b: Seq<u8>, after_a: Seq<u8>, after_b: Seq<u8>)
    requires
        a.len() <= MAX_FRAME,
        b.len() <= MAX_FRAME,
        framed(a) + after_a == framed(b) + after_b,
    ensures
        a == b,
        after_a == after_b,
{
    let s = framed(a) + after_a;
    let t = framed(b) + after_b;
    let n = a.len() as int;
    let m = b.len() as int;
    assert(s[0] == length_prefix(n)[0] && t[0] == length_prefix(m)[0]);
    assert(s[1] == length_prefix(n)[1] && t[1] == length_prefix(m)[1]);
    assert(s[2] == length_prefix(n)[2] && t[2] == length_prefix(m)[2]);
    assert(s[3] == length_prefix(n)[3] && t[3] == length_prefix(m)[3]);
    assert(n == m);
    assert(s.subrange(4, 4 + n) =~= a);
    assert(t.subrange(4, 4 + m) =~= b);
    assert(s.skip(4 + n) =~= after_a);
    assert(t.skip(4 + m) =~= after_b);
}

/// No frame is longer than its limit and the four bytes before it.
pub proof fn law_frames_are_short(body: Seq<u8>)
    requires
        body.len() <= MAX_FRAME,
    ensures
        framed(body).len() == body.len() + 4,
        framed(body).len() <= MAX_FRAME + 4,
{
}

/// How a frame is read: the first four bytes, the most significant first, are the
/// length of what follows, and that is the body. A body has at most one mebibyte, and
/// the version is the first.
pub proof fn law_frames_start_with_their_length(body: Seq<u8>)
    requires
        body.len() <= 1024 * 1024,
    ensures
        ({
            let f = framed(body);
            &&& f.len() == 4 + body.len()
            &&& f[0] * 16_777_216 + f[1] * 65_536 + f[2] * 256 + f[3] == body.len()
            &&& f.skip(4) == body
        }),
        MAX_FRAME == 1024 * 1024,
        VERSION == 1,
{
    let n = body.len() as int;
    let f = framed(body);
    assert(f.skip(4) =~= body);
    assert(f[0] == length_prefix(n)[0] && f[1] == length_prefix(n)[1]);
    assert(f[2] == length_prefix(n)[2] && f[3] == length_prefix(n)[3]);
}

/// A frame holds at most a mebibyte, and the first version of the protocol is spoken.
pub proof fn law_the_limits_of_the_protocol()
    ensures
        MAX_FRAME == 1024 * 1024,
        VERSION == 1,
{
}

} // verus!
