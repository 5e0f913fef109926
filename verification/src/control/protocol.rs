//! What clients and the daemon say to each other, and how messages are framed: a length of four
//! bytes, most significant first, then that many bytes.

use vstd::prelude::*;

use crate::bytes;
use crate::text;

verus! {

/// The longest frame that is taken.
pub const MAX_FRAME: u32 = 8_388_608;

/// What a client asks.
#[derive(Debug, Clone)]
pub struct Request {
    pub id: u64,
    pub command: Command,
}

#[derive(Debug, Clone)]
pub enum Command {
    CreateVm {
        name: String,
        memory_mb: u64,
        vcpus: u32,
        /// Path of a kernel image.
        kernel: Option<String>,
        /// The kernel's command line.
        cmdline: Option<String>,
        /// Path of a disk image.
        disk: Option<String>,
        /// Path of an initrd image.
        initrd: Option<String>,
        /// Width and height of a display.
        framebuffer: Option<(u32, u32)>,
    },
    StartVm { id: String },
    StopVm { id: String },
    PauseVm { id: String },
    ResumeVm { id: String },
    ListVms,
    /// Keystrokes for the guest's serial console.
    SendSerialInput { id: String, data: Vec<u8> },
    /// Asks for the framebuffer's file descriptor.
    RequestFramebuffer { id: String },
    /// Asks for events.
    Subscribe,
}

/// What the daemon answers.
#[derive(Debug)]
pub struct Response {
    pub id: u64,
    pub result: Result<ResponseBody, String>,
}

#[derive(Debug, Clone)]
pub enum ResponseBody {
    /// Done, with nothing to tell. On the wire this is called "Ok".
    Done,
    Created { id: String },
    VmList { vms: Vec<VmInfo> },
    /// An event, sent to a client that asked for them.
    VmEvent { id: String, event: VmEvent },
    /// The framebuffer's file descriptor follows outside the stream.
    FramebufferIncoming { width: u32, height: u32, size: u64 },
}

#[derive(Debug, Clone, PartialEq, Eq)]
pub struct VmInfo {
    pub id: String,
    pub name: String,
    pub state: String,
    pub memory_mb: u64,
    pub vcpus: u32,
}

#[derive(Debug, Clone, PartialEq, Eq)]
pub enum VmEvent {
    StateChanged(String),
    SerialOutput(Vec<u8>),
    /// The machine ended, for this reason.
    Exited(String),
}

impl Clone for Response {
    fn clone(&self) -> (r: Self)
        ensures
            r.id == self.id,
            r.result is Ok <==> self.result is Ok,
            self.result matches Err(e) ==> r.result == Err::<ResponseBody, String>(e),
    {
        let result = match &self.result {
            Ok(body) => Ok(body.clone()),
            Err(e) => Err(e.clone()),
        };
        Response { id: self.id, result }
    }
}

impl Response {
    /// An answer to the request `id` that succeeded.
    pub fn ok(id: u64, body: ResponseBody) -> (r: Self)
        ensures
            r == (Response { id, result: Ok(body) }),
    {
        Response { id, result: Ok(body) }
    }

    /// An answer to the request `id` that failed.
    pub fn err(id: u64, msg: String) -> (r: Self)
        ensures
            r == (Response { id, result: Err(msg) }),
    {
        Response { id, result: Err(msg) }
    }
}

/// An error of the JSON encoder, which framing never gives.
#[verifier::external_type_specification]
#[verifier::external_body]
pub struct ExJsonError(serde_json::Error);

/// A frame: the payload's length, as far as 32 bits say it, then the payload.
pub open spec fn framed(payload: Seq<u8>) -> Seq<u8> {
    bytes::be32((payload.len() % 0x1_0000_0000) as u32) + payload
}

/// Puts a payload into a frame.
pub fn frame(payload: &[u8]) -> (r: serde_json::Result<Vec<u8>>)
    ensures
        r matches Ok(f) && f@ == framed(payload@),
{
    let mut out: Vec<u8> = Vec::new();
    let n = bytes::to_be32((payload.len() as u64 % 0x1_0000_0000) as u32);
    bytes::push_bytes(&mut out, &n);
    bytes::push_bytes(&mut out, payload);
    assert(out@ =~= framed(payload@));
    Ok(out)
}

/// The length that a frame's first four bytes say.
pub open spec fn frame_length(prefix: Seq<u8>) -> u32 {
    bytes::u32_of(prefix.reverse())
}

/// How long the payload is that follows the four bytes of `prefix`, if that is taken.
pub fn payload_length(prefix: &[u8; 4]) -> (r: Result<usize, String>)
    ensures
        match r {
            Ok(n) => n == frame_length(prefix@) && n <= MAX_FRAME,
            Err(e) => {
                &&& frame_length(prefix@) > MAX_FRAME
                &&& e@ == "frame too large: "@ + text::dec(frame_length(prefix@) as nat)
                    + " bytes"@
            },
        },
{
    let len: u32 = bytes::from_be32(prefix);
    if len > MAX_FRAME {
        let n = text::dec_text(len as u64);
        Err(text::join3("frame too large: ", n.as_str(), " bytes"))
    } else {
        Ok(len as usize)
    }
}

/// What was framed is found again: the first four bytes say how long the payload is, and it
/// follows them. Two payloads have the same frame only if they are the same.
pub proof fn frame_reads_back(payload: Seq<u8>)
    requires
        payload.len() <= MAX_FRAME,
    ensures
        framed(payload).len() == 4 + payload.len(),
        frame_length(framed(payload).take(4)) == payload.len(),
        framed(payload).skip(4) == payload,
{
    let n = payload.len() as u32;
    let f = framed(payload);
    assert(f.take(4) =~= bytes::be32(n));
    assert(bytes::be32(n).reverse() =~= bytes::le32(n));
    bytes::le32_roundtrip(n);
    assert(f.skip(4) =~= payload);
}

} // verus!
