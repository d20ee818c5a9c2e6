//! The per-session log store: an append-only sequence of records per
//! session, numbered by the writer from one up, read back in exactly
//! that order; and the key scheme under which records are filed, a
//! session UUID with a fixed-width hexadecimal line number, so that key
//! order is line order.
use crate::text::{hex_of_width, uuid_text};
use vstd::prelude::*;

verus! {

/// One log record as it is posted.
pub struct Log {
    pub message: String,
    pub timestamp: String,
    pub level: String,
}

/// One log record as it is stored and served: the posted record with
/// its assigned line number.
pub struct LogWithLine {
    pub message: String,
    pub timestamp: String,
    pub level: String,
    pub line: u64,
}

/// The text of a record key: the session UUID, a hyphen, and the line
/// number as sixteen hexadecimal digits — fixed width, so that the
/// store's key order is the line order.
pub open spec fn key_text(uuid: u128, line: u64) -> Seq<char> {
    uuid_text(uuid) + seq!['-'] + hex_of_width(line as nat, 16)
}

/// The ASCII bytes of an ASCII string.
pub open spec fn ascii_bytes(s: Seq<char>) -> Seq<u8> {
    Seq::new(s.len(), |i: int| s[i] as u8)
}

/// A cursor into one session's log: the session and the line the
/// cursor stands on.
pub struct LogLineKey {
    uuid: u128,
    log_line: u64,
}

impl LogLineKey {
    /// The session this key belongs to.
    pub closed spec fn spec_uuid(&self) -> u128 {
        self.uuid
    }

    /// The line this key stands on.
    pub closed spec fn spec_line(&self) -> u64 {
        self.log_line
    }

    /// A key from its parts.
    pub fn from_parts(uuid: u128, log_line: u64) -> (r: LogLineKey)
        ensures
            r.spec_uuid() == uuid,
            r.spec_line() == log_line,
    {
        LogLineKey { uuid, log_line }
    }

    /// Advance the cursor by one line.
    pub fn increment(&mut self)
        requires
            old(self).spec_line() < u64::MAX,
        ensures
            final(self).spec_uuid() == old(self).spec_uuid(),
            final(self).spec_line() == old(self).spec_line() + 1,
    {
        self.log_line = self.log_line + 1;
    }

    /// The line this key stands on.
    pub fn log_line(&self) -> (r: u64)
        ensures
            r == self.spec_line(),
    {
        self.log_line
    }

    /// The key's text.
    pub fn key_string(&self) -> (r: String)
        ensures
            r@ == key_text(self.spec_uuid(), self.spec_line()),
    {
        let mut out = String::new();
        crate::text::append_uuid(&mut out, self.uuid);
        out.append("-");
        crate::text::append_hex16_u64(&mut out, self.log_line);
        proof {
            reveal_strlit("-");
            assert("-"@ =~= seq!['-']);
            assert(out@ =~= key_text(self.uuid, self.log_line));
        }
        out
    }

    /// The key as the store's byte key.
    pub fn as_bytes(&self) -> (r: Vec<u8>)
        ensures
            r@ == ascii_bytes(key_text(self.spec_uuid(), self.spec_line())),
    {
        string_ascii_bytes(&self.key_string())
    }

    /// The upper bound of this session's key range: the key of the
    /// largest possible line number.
    pub fn range_max(&self) -> (r: Vec<u8>)
        ensures
            r@ == ascii_bytes(key_text(self.spec_uuid(), u64::MAX)),
    {
        let top = LogLineKey { uuid: self.uuid, log_line: u64::MAX };
        string_ascii_bytes(&top.key_string())
    }
}

/// The ASCII bytes of a string value.
fn string_ascii_bytes(s: &String) -> (r: Vec<u8>)
    ensures
        r@ == ascii_bytes(s@),
{
    let st = s.as_str();
    let n = st.unicode_len();
    let mut out: Vec<u8> = Vec::new();
    let mut i: usize = 0;
    while i < n
        invariant
            n == st@.len(),
            st@ == s@,
            i <= n,
            out@.len() == i,
            forall|k: int| 0 <= k < i ==> out@[k] == s@[k] as u8,
        decreases n - i,
    {
        out.push(st.get_char(i) as u8);
        i = i + 1;
    }
    proof {
        assert(out@ =~= ascii_bytes(s@));
    }
    out
}

/// The records of a batch, numbered from `base + 1` on.
pub open spec fn numbered(logs: Seq<Log>, base: int) -> Seq<LogWithLine> {
    Seq::new(
        logs.len(),
        |i: int|
            LogWithLine {
                message: logs[i].message,
                timestamp: logs[i].timestamp,
                level: logs[i].level,
                line: (base + i + 1) as u64,
            },
    )
}

/// A session's records carry exactly the line numbers 1 up to their
/// count, in order.
pub open spec fn session_lines_wf(recs: Seq<LogWithLine>) -> bool {
    forall|i: int| 0 <= i < recs.len() ==> (#[trigger] recs[i]).line == i + 1
}

/// The whole store's invariant: sessions are distinct and each is
/// numbered from one up without gaps.
pub open spec fn log_store_wf(sessions: Seq<(u128, Seq<LogWithLine>)>) -> bool {
    &&& forall|i: int, j: int|
        0 <= i < j < sessions.len() ==> sessions[i].0 != sessions[j].0
    &&& forall|i: int|
        0 <= i < sessions.len() ==> session_lines_wf((#[trigger] sessions[i]).1)
}

/// Whether the store holds a session.
pub open spec fn store_has_session(sessions: Seq<(u128, Seq<LogWithLine>)>, id: u128) -> bool {
    exists|i: int| 0 <= i < sessions.len() && sessions[i].0 == id
}

/// The index of a session.
pub open spec fn store_session_idx(sessions: Seq<(u128, Seq<LogWithLine>)>, id: u128) -> int {
    choose|i: int| 0 <= i < sessions.len() && sessions[i].0 == id
}

/// A session's records, the empty sequence for an unknown session.
pub open spec fn session_of(sessions: Seq<(u128, Seq<LogWithLine>)>, id: u128) -> Seq<LogWithLine> {
    if store_has_session(sessions, id) {
        sessions[store_session_idx(sessions, id)].1
    } else {
        Seq::empty()
    }
}

/// The append-only per-session log store.
pub struct LogStore {
    sessions: Vec<(u128, Vec<LogWithLine>)>,
}

impl View for LogStore {
    type V = Seq<(u128, Seq<LogWithLine>)>;

    closed spec fn view(&self) -> Seq<(u128, Seq<LogWithLine>)> {
        self.sessions@.map_values(|s: (u128, Vec<LogWithLine>)| (s.0, s.1@))
    }
}

impl LogStore {
    /// An empty store.
    pub fn new() -> (r: LogStore)
        ensures
            r@ == Seq::<(u128, Seq<LogWithLine>)>::empty(),
            log_store_wf(r@),
    {
        let r = LogStore { sessions: Vec::new() };
        proof {
            assert(r@ =~= Seq::<(u128, Seq<LogWithLine>)>::empty());
        }
        r
    }

    /// The index of a session.
    fn find_session(&self, id: u128) -> (r: Option<usize>)
        ensures
            r matches Some(i) ==> i < self@.len() && self@[i as int].0 == id,
            r is None ==> !store_has_session(self@, id),
    {
        let n = self.sessions.len();
        let mut i: usize = 0;
        while i < n
            invariant
                n == self@.len(),
                n == self.sessions@.len(),
                i <= n,
                forall|k: int| 0 <= k < i ==> self@[k].0 != id,
            decreases n - i,
        {
            proof {
                assert(self@[i as int] == (self.sessions@[i as int].0, self.sessions@[i as int].1@));
            }
            if self.sessions[i].0 == id {
                return Some(i);
            }
            i = i + 1;
        }
        None
    }

    /// Post a batch of records to a session. The writer assigns the
    /// next line numbers in order: the session grows by exactly the
    /// batch, numbered from one past its previous end, and no other
    /// session changes.
    pub fn post_lines(&mut self, session: u128, logs: &Vec<Log>) -> (count: u64)
        requires
            log_store_wf(old(self)@),
            session_of(old(self)@, session).len() + logs@.len() <= u64::MAX,
        ensures
            log_store_wf(final(self)@),
            count == session_of(final(self)@, session).len(),
            session_of(final(self)@, session) == session_of(old(self)@, session) + numbered(
                logs@,
                session_of(old(self)@, session).len() as int,
            ),
            forall|other: u128|
                other != session ==> session_of(final(self)@, other) == session_of(
                    old(self)@,
                    other,
                ),
    {
        let idx = match self.find_session(session) {
            Some(i) => i,
            None => {
                let i = self.sessions.len();
                self.sessions.push((session, Vec::new()));
                i
            },
        };
        proof {
            if idx < old(self)@.len() {
                assert(self@[idx as int].0 == session);
            } else {
                assert(self@ =~= old(self)@.push((session, Seq::<LogWithLine>::empty())));
                assert(self@[idx as int].0 == session);
                assert forall|a: int, b: int| 0 <= a < b < self@.len() implies self@[a].0
                    != self@[b].0 by {
                    if b == self@.len() - 1 {
                        assert(!store_has_session(old(self)@, session));
                        assert(self@[a] == old(self)@[a]);
                    }
                }
            }
            lemma_session_idx(self@, session, idx as int);
            if idx >= old(self)@.len() {
                assert(session_of(self@, session) =~= session_of(old(self)@, session));
            }
        }
        let ghost mid = self@;
        let pair = self.sessions.remove(idx);
        let session_id = pair.0;
        let mut recs = pair.1;
        let ghost base = recs@.len() as int;
        proof {
            assert(mid[idx as int] == (pair.0, pair.1@));
            assert(recs@ == mid[idx as int].1);
            assert(base == session_of(mid, session).len());
            assert(recs@ =~= mid[idx as int].1 + numbered(logs@, base).subrange(0, 0));
        }
        let n = logs.len();
        let mut k: usize = 0;
        while k < n
            invariant
                k <= n,
                n == logs@.len(),
                base + n <= u64::MAX,
                0 <= base,
                base == mid[idx as int].1.len(),
                recs@ == mid[idx as int].1 + numbered(logs@, base).subrange(0, k as int),
            decreases n - k,
        {
            let line: u64 = (recs.len() as u64) + 1;
            proof {
                assert(recs@.len() == base + k);
            }
            recs.push(
                LogWithLine {
                    message: logs[k].message.clone(),
                    timestamp: logs[k].timestamp.clone(),
                    level: logs[k].level.clone(),
                    line,
                },
            );
            proof {
                assert(numbered(logs@, base)[k as int].line == base + k + 1);
                assert(recs@ =~= mid[idx as int].1 + numbered(logs@, base).subrange(0, k + 1));
            }
            k = k + 1;
        }
        let count = recs.len() as u64;
        self.sessions.insert(idx, (session_id, recs));
        proof {
            let ghost fin = self@;
            assert(numbered(logs@, base).subrange(0, n as int) =~= numbered(logs@, base));
            assert(fin =~= mid.update(
                idx as int,
                (session, mid[idx as int].1 + numbered(logs@, base)),
            ));
            assert forall|a: int, b: int| 0 <= a < b < fin.len() implies fin[a].0 != fin[b].0 by {
                assert(mid[a].0 != mid[b].0);
            }
            lemma_session_idx(fin, session, idx as int);
            assert forall|i: int| 0 <= i < fin.len() implies session_lines_wf(
                (#[trigger] fin[i]).1,
            ) by {
                if i == idx {
                    assert(session_lines_wf(mid[idx as int].1));
                    assert forall|j: int| 0 <= j < fin[i].1.len() implies (#[trigger] fin[i].1[j]).line
                        == j + 1 by {
                        if j < base {
                            assert(fin[i].1[j] == mid[idx as int].1[j]);
                        } else {
                            assert(fin[i].1[j] == numbered(logs@, base)[j - base]);
                        }
                    }
                } else {
                    assert(session_lines_wf(mid[i].1));
                }
            }
            assert forall|other: u128| other != session implies session_of(fin, other)
                == session_of(old(self)@, other) by {
                lemma_other_sessions(old(self)@, mid, fin, session, other, idx as int);
            }
        }
        count
    }

    /// The records of a session from a cursor on: everything past the
    /// first `after` lines, in line order.
    pub fn read_from(&self, session: u128, after: u64) -> (r: Vec<LogWithLine>)
        requires
            log_store_wf(self@),
        ensures
            ({
                let recs = session_of(self@, session);
                let start = if after <= recs.len() {
                    after as int
                } else {
                    recs.len() as int
                };
                r@ == recs.subrange(start, recs.len() as int)
            }),
    {
        let ghost recs_g = session_of(self@, session);
        match self.find_session(session) {
            None => {
                let empty: Vec<LogWithLine> = Vec::new();
                proof {
                    assert(empty@ =~= recs_g.subrange(0, recs_g.len() as int));
                }
                empty
            },
            Some(i) => {
                proof {
                    lemma_session_idx(self@, session, i as int);
                    assert(self@[i as int] == (self.sessions@[i as int].0, self.sessions@[i as int].1@));
                }
                let recs = &self.sessions[i].1;
                let len = recs.len();
                let start: usize = if after <= (len as u64) {
                    after as usize
                } else {
                    len
                };
                let mut out: Vec<LogWithLine> = Vec::new();
                let mut j: usize = start;
                while j < len
                    invariant
                        start <= j <= len,
                        len == recs@.len(),
                        recs@ == recs_g,
                        out@ =~= recs_g.subrange(start as int, j as int),
                    decreases len - j,
                {
                    out.push(
                        LogWithLine {
                            message: recs[j].message.clone(),
                            timestamp: recs[j].timestamp.clone(),
                            level: recs[j].level.clone(),
                            line: recs[j].line,
                        },
                    );
                    proof {
                        assert(out@.last() == recs_g[j as int]);
                        assert(out@ =~= recs_g.subrange(start as int, j + 1));
                    }
                    j = j + 1;
                }
                out
            },
        }
    }
}

/// Sessions other than the posted one read back unchanged.
proof fn lemma_other_sessions(
    pre: Seq<(u128, Seq<LogWithLine>)>,
    mid: Seq<(u128, Seq<LogWithLine>)>,
    fin: Seq<(u128, Seq<LogWithLine>)>,
    session: u128,
    other: u128,
    idx: int,
)
    requires
        other != session,
        forall|a: int, b: int| 0 <= a < b < pre.len() ==> pre[a].0 != pre[b].0,
        forall|a: int, b: int| 0 <= a < b < fin.len() ==> fin[a].0 != fin[b].0,
        mid == pre || (mid == pre.push((session, Seq::<LogWithLine>::empty()))
            && !store_has_session(pre, session)),
        0 <= idx < mid.len(),
        mid[idx].0 == session,
        fin == mid.update(idx, (session, fin[idx].1)),
    ensures
        session_of(fin, other) == session_of(pre, other),
{
    if store_has_session(pre, other) {
        let k = store_session_idx(pre, other);
        assert(0 <= k < pre.len() && pre[k].0 == other);
        assert(mid[k] == pre[k]);
        assert(k != idx);
        assert(fin[k] == pre[k]);
        lemma_session_idx(fin, other, k);
    } else {
        if store_has_session(fin, other) {
            let k = store_session_idx(fin, other);
            assert(fin[k].0 == other);
            assert(k != idx);
            assert(mid[k].0 == other);
            if k < pre.len() {
                assert(pre[k].0 == other);
                assert(store_has_session(pre, other));
            }
        }
    }
}

/// A reader that opens a session after its N-th line was written sees
/// exactly the lines one through N, in that order, each once: the
/// store's invariant numbers a session's records consecutively from
/// one, so positions and line numbers agree and strictly increase.
pub proof fn lemma_reader_sees_lines(recs: Seq<LogWithLine>)
    requires
        session_lines_wf(recs),
    ensures
        forall|i: int| 0 <= i < recs.len() ==> (#[trigger] recs[i]).line == i + 1,
        forall|i: int, j: int|
            0 <= i < j < recs.len() ==> (#[trigger] recs[i]).line < (#[trigger] recs[j]).line,
{
}

/// An index holding a session id is the index `store_session_idx`
/// names, when ids are unique.
proof fn lemma_session_idx(sessions: Seq<(u128, Seq<LogWithLine>)>, id: u128, i: int)
    requires
        forall|a: int, b: int| 0 <= a < b < sessions.len() ==> sessions[a].0 != sessions[b].0,
        0 <= i < sessions.len(),
        sessions[i].0 == id,
    ensures
        store_has_session(sessions, id),
        store_session_idx(sessions, id) == i,
{
    assert(store_has_session(sessions, id));
    let k = store_session_idx(sessions, id);
    if k != i {
        if k < i {
            assert(sessions[k].0 != sessions[i].0);
        } else {
            assert(sessions[i].0 != sessions[k].0);
        }
    }
}

} // verus!
