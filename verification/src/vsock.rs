//! The guest↔host control channel: length-prefixed framing of the
//! messages, and the host-side session that accepts exactly one
//! acknowledgement and at most one completion verdict for its job,
//! dropping everything that names a different job.
use crate::protocol::{JobConfig, VsockGuestMessage, VsockHostMessage};
use vstd::prelude::*;

verus! {

/// The little-endian bytes of a 32-bit length.
pub open spec fn u32_le_bytes(n: u32) -> Seq<u8> {
    seq![
        (n % 256) as u8,
        ((n / 256) % 256) as u8,
        ((n / 65536) % 256) as u8,
        ((n / 16777216) % 256) as u8,
    ]
}

/// The value those bytes carry.
pub open spec fn u32_from_le(b: Seq<u8>) -> int {
    b[0] + b[1] * 256 + b[2] * 65536 + b[3] * 16777216
}

/// A frame on the wire: the payload's length, little-endian, then the
/// payload.
pub open spec fn framed(payload: Seq<u8>) -> Seq<u8> {
    u32_le_bytes(payload.len() as u32) + payload
}

/// Write one frame: the length prefix and the payload.
pub fn frame_message(payload: &Vec<u8>) -> (r: Vec<u8>)
    requires
        payload@.len() <= u32::MAX,
    ensures
        r@ == framed(payload@),
{
    let len: u32 = payload.len() as u32;
    let mut out: Vec<u8> = Vec::new();
    out.push((len % 256) as u8);
    out.push(((len / 256) % 256) as u8);
    out.push(((len / 65536) % 256) as u8);
    out.push(((len / 16777216) % 256) as u8);
    let n = payload.len();
    let mut i: usize = 0;
    while i < n
        invariant
            i <= n,
            n == payload@.len(),
            n <= u32::MAX,
            len == n as u32,
            out@ == u32_le_bytes(len) + payload@.subrange(0, i as int),
        decreases n - i,
    {
        out.push(payload[i]);
        proof {
            assert(out@ =~= u32_le_bytes(len) + payload@.subrange(0, i + 1));
        }
        i = i + 1;
    }
    proof {
        assert(payload@.subrange(0, n as int) =~= payload@);
    }
    out
}

/// Read one frame from the front of a buffer: the payload and how many
/// bytes the frame took; nothing if the buffer does not yet hold a
/// whole frame.
pub fn decode_frame(buf: &Vec<u8>) -> (r: Option<(Vec<u8>, usize)>)
    ensures
        match r {
            Some(p) => {
                &&& buf@.len() >= 4
                &&& p.1 == 4 + u32_from_le(buf@.subrange(0, 4))
                &&& p.1 <= buf@.len()
                &&& p.0@ == buf@.subrange(4, p.1 as int)
            },
            None => buf@.len() < 4 || 4 + u32_from_le(buf@.subrange(0, 4)) > buf@.len(),
        },
{
    if buf.len() < 4 {
        return None;
    }
    let len: usize = (buf[0] as usize) + (buf[1] as usize) * 256 + (buf[2] as usize) * 65536 + (
    buf[3] as usize) * 16777216;
    proof {
        assert(buf@.subrange(0, 4)[0] == buf@[0]);
        assert(buf@.subrange(0, 4)[1] == buf@[1]);
        assert(buf@.subrange(0, 4)[2] == buf@[2]);
        assert(buf@.subrange(0, 4)[3] == buf@[3]);
    }
    if len > buf.len() - 4 {
        return None;
    }
    let end = 4 + len;
    let mut payload: Vec<u8> = Vec::new();
    let mut i: usize = 4;
    while i < end
        invariant
            4 <= i <= end <= buf@.len(),
            payload@ == buf@.subrange(4, i as int),
        decreases end - i,
    {
        payload.push(buf[i]);
        proof {
            assert(payload@ =~= buf@.subrange(4, i + 1));
        }
        i = i + 1;
    }
    Some((payload, end))
}

/// Framing round trip: a frame written at the front of any stream is
/// read back exactly, consuming exactly the frame.
pub proof fn lemma_frame_roundtrip(payload: Seq<u8>, rest: Seq<u8>)
    requires
        payload.len() <= u32::MAX,
    ensures
        ({
            let buf = framed(payload) + rest;
            &&& buf.len() >= 4
            &&& u32_from_le(buf.subrange(0, 4)) == payload.len()
            &&& buf.subrange(4, 4 + payload.len() as int) == payload
        }),
{
    let buf = framed(payload) + rest;
    let n = payload.len() as u32;
    assert(buf.subrange(0, 4) =~= u32_le_bytes(n));
    assert(u32_le_bytes(n)[0] == n % 256);
    assert(u32_from_le(u32_le_bytes(n)) == (n % 256) + ((n / 256) % 256) * 256 + ((n / 65536) % 256)
        * 65536 + ((n / 16777216) % 256) * 16777216);
    assert((n % 256) + ((n / 256) % 256) * 256 + ((n / 65536) % 256) * 65536 + ((n / 16777216)
        % 256) * 16777216 == n) by (nonlinear_arith);
    assert(buf.subrange(4, 4 + payload.len() as int) =~= payload);
}

/// The host-side session of one job's control channel.
#[derive(Clone, Copy, Debug, PartialEq, Eq, Structural)]
pub enum SessionState {
    /// The configuration went out; only the matching `Ready` may come.
    AwaitingReady,
    /// The guest acknowledged; logs flow, one completion may come.
    Running,
    /// The session is over: the verdict arrived or the channel closed.
    Closed,
}

/// What the host does with one guest message.
#[derive(Clone, Copy, Debug, PartialEq, Eq, Structural)]
pub enum SessionAction {
    /// Nothing; the message was dropped with a logged error.
    Ignore,
    /// The guest is ready; keep the channel open.
    Acknowledged,
    /// Forward this log line to the job's log stream.
    ForwardLog,
    /// The verdict arrived: tear the VM down and close the session.
    CompleteSession,
    /// A message that breaks the protocol: tear the connection down.
    ProtocolError,
}

/// The host side of one control-channel session.
pub struct GuestSession {
    pub job_id: u128,
    pub state: SessionState,
    /// The one recorded verdict.
    pub result: Option<bool>,
}

impl GuestSession {
    /// A fresh session for a job, right after its configuration was
    /// sent.
    pub fn new(job_id: u128) -> (r: GuestSession)
        ensures
            r.job_id == job_id,
            r.state == SessionState::AwaitingReady,
            r.result is None,
    {
        GuestSession { job_id, state: SessionState::AwaitingReady, result: None }
    }

    /// Drive the session by one received guest message. A message for
    /// another job never changes the session; the first state accepts
    /// only the matching `Ready`; at most one `Complete` is ever
    /// recorded, and it closes the session.
    pub fn on_message(&mut self, msg: &VsockGuestMessage) -> (r: SessionAction)
        ensures
            final(self).job_id == old(self).job_id,
            ({
                let this = *old(self);
                match *msg {
                    VsockGuestMessage::Ready { id } => {
                        if this.state == SessionState::AwaitingReady {
                            if id == this.job_id {
                                r == SessionAction::Acknowledged && final(self).state
                                    == SessionState::Running && final(self).result == this.result
                            } else {
                                r == SessionAction::ProtocolError && *final(self) == this
                            }
                        } else {
                            r == SessionAction::Ignore && *final(self) == this
                        }
                    },
                    VsockGuestMessage::Complete { id, success } => {
                        if this.state == SessionState::AwaitingReady {
                            r == SessionAction::ProtocolError && *final(self) == this
                        } else if this.state == SessionState::Running && id == this.job_id {
                            r == SessionAction::CompleteSession && final(self).state
                                == SessionState::Closed && final(self).result == Some(success)
                        } else {
                            r == SessionAction::Ignore && *final(self) == this
                        }
                    },
                    VsockGuestMessage::Log { id, .. } => {
                        if this.state == SessionState::AwaitingReady {
                            r == SessionAction::ProtocolError && *final(self) == this
                        } else if this.state == SessionState::Running && id == this.job_id {
                            r == SessionAction::ForwardLog && *final(self) == this
                        } else {
                            r == SessionAction::Ignore && *final(self) == this
                        }
                    },
                }
            }),
    {
        match msg {
            VsockGuestMessage::Ready { id } => {
                if self.state == SessionState::AwaitingReady {
                    if *id == self.job_id {
                        self.state = SessionState::Running;
                        SessionAction::Acknowledged
                    } else {
                        SessionAction::ProtocolError
                    }
                } else {
                    SessionAction::Ignore
                }
            },
            VsockGuestMessage::Complete { id, success } => {
                if self.state == SessionState::AwaitingReady {
                    SessionAction::ProtocolError
                } else if self.state == SessionState::Running && *id == self.job_id {
                    self.state = SessionState::Closed;
                    self.result = Some(*success);
                    SessionAction::CompleteSession
                } else {
                    SessionAction::Ignore
                }
            },
            VsockGuestMessage::Log { id, .. } => {
                if self.state == SessionState::AwaitingReady {
                    SessionAction::ProtocolError
                } else if self.state == SessionState::Running && *id == self.job_id {
                    SessionAction::ForwardLog
                } else {
                    SessionAction::Ignore
                }
            },
        }
    }
}

/// The guest's answer to the configuration it received: readiness for
/// exactly that job.
pub fn guest_hello(config: &JobConfig) -> (r: VsockGuestMessage)
    ensures
        r matches VsockGuestMessage::Ready { id } && id == config.id,
{
    VsockGuestMessage::Ready { id: config.id }
}

/// The message a host opens a session with.
pub fn host_config_message(config: JobConfig) -> (r: VsockHostMessage)
    ensures
        r matches VsockHostMessage::JobConfig(c) && c == config,
{
    VsockHostMessage::JobConfig(config)
}

/// A structured log entry as the guest driver sends it.
pub struct LogEntry {
    pub level: String,
    pub target: String,
    pub message: String,
    pub fields: Vec<(String, String)>,
}


impl LogEntry {
    /// The one line the log stream shows for this entry:
    /// `[level] target: message`, with any fields appended as
    /// space-separated `key=value` pairs.
    pub fn format_line(&self) -> (r: String)
        ensures
            r@ == log_line_text(self.level@, self.target@, self.message@, self.fields@),
    {
        let mut out = String::from_str("[");
        out.append(self.level.as_str());
        out.append("] ");
        out.append(self.target.as_str());
        out.append(": ");
        out.append(self.message.as_str());
        let n = self.fields.len();
        let mut i: usize = 0;
        proof {
            reveal_strlit("[");
            reveal_strlit("] ");
            reveal_strlit(": ");
            assert(out@ =~= "["@ + self.level@ + "] "@ + self.target@ + ": "@ + self.message@
                + fields_text(self.fields@.subrange(0, 0)));
        }
        while i < n
            invariant
                i <= n,
                n == self.fields@.len(),
                out@ == "["@ + self.level@ + "] "@ + self.target@ + ": "@ + self.message@
                    + fields_text(self.fields@.subrange(0, i as int)),
            decreases n - i,
        {
            proof {
                assert(self.fields@.subrange(0, i + 1).drop_last() =~= self.fields@.subrange(
                    0,
                    i as int,
                ));
                assert(self.fields@.subrange(0, i + 1).last() == self.fields@[i as int]);
            }
            out.append(" ");
            out.append(self.fields[i].0.as_str());
            out.append("=");
            out.append(self.fields[i].1.as_str());
            proof {
                reveal_strlit(" ");
                reveal_strlit("=");
                assert(out@ =~= "["@ + self.level@ + "] "@ + self.target@ + ": "@ + self.message@
                    + fields_text(self.fields@.subrange(0, i + 1)));
            }
            i = i + 1;
        }
        proof {
            assert(self.fields@.subrange(0, n as int) =~= self.fields@);
        }
        out
    }
}

/// The rendered fields of a log line: a space, the key, an equals
/// sign, the value, for each field in order.
pub open spec fn fields_text(fields: Seq<(String, String)>) -> Seq<char>
    decreases fields.len(),
{
    if fields.len() == 0 {
        Seq::empty()
    } else {
        fields_text(fields.drop_last()) + seq![' '] + fields.last().0@ + seq!['='
        ] + fields.last().1@
    }
}

/// The whole rendered log line.
pub open spec fn log_line_text(
    level: Seq<char>,
    target: Seq<char>,
    message: Seq<char>,
    fields: Seq<(String, String)>,
) -> Seq<char> {
    "["@ + level + "] "@ + target + ": "@ + message + fields_text(fields)
}

} // verus!
