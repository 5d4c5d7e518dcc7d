//! The framed request/response protocol spoken with a backend process: message framing,
//! header parsing, correlation of replies with pending requests, and the session's
//! lifecycle.
use vstd::prelude::*;
use std::collections::HashMap;

verus! {

broadcast use vstd::std_specs::hash::group_hash_axioms;

/// The bytes of `Content-Length: `.
pub open spec fn header_prefix() -> Seq<u8> {
    seq![67u8, 111, 110, 116, 101, 110, 116, 45, 76, 101, 110, 103, 116, 104, 58, 32]
}

/// The ASCII decimal digits of a natural number.
pub open spec fn decimal_bytes(n: nat) -> Seq<u8>
    decreases n,
{
    if n < 10 {
        seq![(48 + n) as u8]
    } else {
        decimal_bytes(n / 10).push((48 + n % 10) as u8)
    }
}

/// The header block announcing a body of `n` bytes, with the blank line that ends it.
pub open spec fn frame_header(n: nat) -> Seq<u8> {
    header_prefix() + decimal_bytes(n) + seq![13u8, 10, 13, 10]
}

fn push_decimal(n: usize, out: &mut Vec<u8>)
    ensures
        final(out)@ == old(out)@ + decimal_bytes(n as nat),
    decreases n,
{
    if n < 10 {
        out.push((48 + n) as u8);
    } else {
        push_decimal(n / 10, out);
        out.push((48 + n % 10) as u8);
        assert(final(out)@ =~= old(out)@ + decimal_bytes(n as nat));
    }
}

/// A message framed for the wire: its header block, then the body.
pub fn encode_frame(body: &[u8]) -> (r: Vec<u8>)
    ensures
        r@ == frame_header(body@.len()) + body@,
{
    let mut r: Vec<u8> = vec![67u8, 111, 110, 116, 101, 110, 116, 45, 76, 101, 110, 103, 116, 104, 58, 32];
    assert(r@ =~= header_prefix());
    push_decimal(body.len(), &mut r);
    r.push(13);
    r.push(10);
    r.push(13);
    r.push(10);
    assert(r@ =~= frame_header(body@.len()));
    let ghost head = r@;
    let mut i: usize = 0;
    while i < body.len()
        invariant
            i <= body@.len(),
            r@ == head + body@.take(i as int),
        decreases body@.len() - i,
    {
        r.push(body[i]);
        assert(r@ =~= head + body@.take(i + 1));
        i += 1;
    }
    assert(body@.take(i as int) =~= body@);
    r
}

/// Whether `c` is a blank that trimming removes.
pub open spec fn is_blank(c: char) -> bool {
    c == ' ' || c == '\t' || c == '\n' || c == '\r' || c == '\x0b' || c == '\x0c'
}

/// `s` without leading blanks.
pub open spec fn trim_front(s: Seq<char>) -> Seq<char>
    decreases s.len(),
{
    if s.len() > 0 && is_blank(s[0]) {
        trim_front(s.drop_first())
    } else {
        s
    }
}

/// `s` without trailing blanks.
pub open spec fn trim_back(s: Seq<char>) -> Seq<char>
    decreases s.len(),
{
    if s.len() > 0 && is_blank(s.last()) {
        trim_back(s.drop_last())
    } else {
        s
    }
}

/// The position of the first `": "` in `s` at or after `i`.
pub open spec fn separator_at(s: Seq<char>, i: int) -> Option<int>
    decreases s.len() - i,
{
    if i < 0 || i + 1 >= s.len() {
        None
    } else if s[i] == ':' && s[i + 1] == ' ' {
        Some(i)
    } else {
        separator_at(s, i + 1)
    }
}

/// Whether `c` is an ASCII decimal digit.
pub open spec fn is_digit(c: char) -> bool {
    0x30 <= c as u32 <= 0x39
}

/// The value of a run of decimal digits.
pub open spec fn digits_value(s: Seq<char>) -> nat
    decreases s.len(),
{
    if s.len() == 0 {
        0
    } else {
        digits_value(s.drop_last()) * 10 + (s.last() as u32 - 0x30) as nat
    }
}

/// `s` without a leading `+`.
pub open spec fn unsigned_part(s: Seq<char>) -> Seq<char> {
    if s.len() > 0 && s[0] == '+' {
        s.drop_first()
    } else {
        s
    }
}

/// The number that `s` writes in decimal, with an optional leading `+`.
pub open spec fn decimal_value(s: Seq<char>) -> Option<nat> {
    if unsigned_part(s).len() > 0 && forall|i: int|
        0 <= i < unsigned_part(s).len() ==> is_digit(#[trigger] unsigned_part(s)[i]) {
        Some(digits_value(unsigned_part(s)))
    } else {
        None
    }
}

/// The body length a `Content-Length` value gives: its number, or zero when it is not a
/// number that fits.
pub open spec fn length_value(s: Seq<char>) -> nat {
    match decimal_value(s) {
        Some(n) => if n <= usize::MAX { n } else { 0 },
        None => 0,
    }
}

/// The state of reading one header block, and the body length it announces once it ends.
pub open spec fn header_step(length: nat, line: Seq<char>) -> (nat, Option<nat>) {
    if line == seq!['\r', '\n'] || line == seq!['\n'] {
        (0, if length > 0 { Some(length) } else { None })
    } else {
        let t = trim_back(trim_front(line));
        match separator_at(t, 0) {
            Some(k) => if t.subrange(0, k) == "Content-Length"@ {
                (length_value(t.subrange(k + 2, t.len() as int)), None)
            } else {
                (length, None)
            },
            None => (length, None),
        }
    }
}

/// Reads the header blocks that precede each message body.
pub struct HeaderReader {
    content_length: usize,
}

impl HeaderReader {
    /// The body length announced so far in the current header block.
    pub closed spec fn length(&self) -> nat {
        self.content_length as nat
    }

    pub fn new() -> (r: Self)
        ensures
            r.length() == 0,
    {
        HeaderReader { content_length: 0 }
    }

    /// Takes one header line, with its line ending. At the blank line that ends a block,
    /// returns the length of the body to read, if one was announced, and starts a new
    /// block; a `Content-Length` line sets the length.
    pub fn on_line(&mut self, line: &str) -> (r: Option<usize>)
        ensures
            (final(self).length(), match r {
                Some(n) => Some(n as nat),
                None => None,
            }) == header_step(old(self).length(), line@),
    {
        let cs = crate::text::chars_of(line);
        if (cs.len() == 2 && cs[0] == '\r' && cs[1] == '\n') || (cs.len() == 1 && cs[0] == '\n') {
            assert(cs@ =~= seq!['\r', '\n'] || cs@ =~= seq!['\n']);
            let n = self.content_length;
            self.content_length = 0;
            return if n > 0 {
                Some(n)
            } else {
                None
            };
        }
        assert(!(line@ == seq!['\r', '\n'] || line@ == seq!['\n'])) by {
            if line@ == seq!['\r', '\n'] {
                assert(cs@[0] == '\r' && cs@[1] == '\n');
            }
            if line@ == seq!['\n'] {
                assert(cs@[0] == '\n');
            }
        }
        let t = trim_chars(&cs);
        match find_separator(&t) {
            Some(k) => {
                assert(k + 2 <= t@.len());
                proof {
                    reveal_strlit("Content-Length");
                }
                let key = crate::text::chars_of("Content-Length");
                let head = sub_chars(&t, 0, k);
                if crate::text::chars_equal(&head, &key) {
                    let value = sub_chars(&t, k + 2, t.len());
                    self.content_length = parse_length(&value);
                }
            },
            None => {},
        }
        None
    }
}

fn sub_chars(cs: &Vec<char>, from: usize, to: usize) -> (r: Vec<char>)
    requires
        from <= to <= cs@.len(),
    ensures
        r@ == cs@.subrange(from as int, to as int),
{
    let mut r: Vec<char> = Vec::new();
    let mut i = from;
    while i < to
        invariant
            from <= i <= to,
            to <= cs@.len(),
            r@ == cs@.subrange(from as int, i as int),
        decreases to - i,
    {
        r.push(cs[i]);
        assert(r@ =~= cs@.subrange(from as int, i + 1));
        i += 1;
    }
    r
}

fn is_blank_char(c: char) -> (r: bool)
    ensures
        r == is_blank(c),
{
    c == ' ' || c == '\t' || c == '\n' || c == '\r' || c == '\x0b' || c == '\x0c'
}

fn trim_chars(cs: &Vec<char>) -> (r: Vec<char>)
    ensures
        r@ == trim_back(trim_front(cs@)),
{
    let mut a: usize = 0;
    assert(cs@.skip(0) =~= cs@);
    while a < cs.len() && is_blank_char(cs[a])
        invariant
            a <= cs@.len(),
            trim_front(cs@.skip(a as int)) == trim_front(cs@),
        decreases cs@.len() - a,
    {
        assert(cs@.skip(a as int).drop_first() =~= cs@.skip(a + 1));
        a += 1;
    }
    assert(trim_front(cs@) == cs@.skip(a as int));
    let mut b: usize = cs.len();
    while b > a && is_blank_char(cs[b - 1])
        invariant
            a <= b <= cs@.len(),
            trim_back(cs@.subrange(a as int, b as int)) == trim_back(cs@.skip(a as int)),
        decreases b,
    {
        assert(cs@.subrange(a as int, b as int).drop_last() =~= cs@.subrange(a as int, b - 1));
        b -= 1;
    }
    sub_chars(cs, a, b)
}

fn find_separator(cs: &Vec<char>) -> (r: Option<usize>)
    ensures
        r is None ==> separator_at(cs@, 0) is None,
        r matches Some(k) ==> separator_at(cs@, 0) == Some(k as int) && k + 2 <= cs@.len(),
{
    let mut i: usize = 0;
    while cs.len() > 1 && i < cs.len() - 1
        invariant
            i <= cs@.len(),
            separator_at(cs@, i as int) == separator_at(cs@, 0),
        decreases cs@.len() - i,
    {
        if cs[i] == ':' && cs[i + 1] == ' ' {
            return Some(i);
        }
        i += 1;
    }
    None
}

/// The body length a `Content-Length` value gives.
fn parse_length(s: &Vec<char>) -> (r: usize)
    ensures
        r as nat == length_value(s@),
{
    let start: usize = if s.len() > 0 && s[0] == '+' { 1 } else { 0 };
    let ghost d = unsigned_part(s@);
    assert(d =~= s@.skip(start as int));
    if start == s.len() {
        return 0;
    }
    let mut acc: usize = 0;
    let mut i = start;
    while i < s.len()
        invariant
            start <= i <= s@.len(),
            d == s@.skip(start as int),
            d == unsigned_part(s@),
            forall|j: int| 0 <= j < i - start ==> is_digit(#[trigger] d[j]),
            acc as nat == digits_value(d.take(i - start)),
        decreases s@.len() - i,
    {
        let c = s[i];
        assert(d[i - start] == c);
        if !((c as u32) >= 0x30 && (c as u32) <= 0x39) {
            assert(!is_digit(d[i - start]));
            assert(!(forall|j: int| 0 <= j < d.len() ==> is_digit(#[trigger] d[j])));
            assert(decimal_value(s@) is None);
            return 0;
        }
        let digit: usize = ((c as u32) - 0x30) as usize;
        assert(d.take(i - start + 1).drop_last() =~= d.take(i - start));
        if acc > (usize::MAX - digit) / 10 {
            proof {
                assert(is_digit(d[i - start]));
                lemma_digits_grow(d, i - start + 1);
                assert(digits_value(d.take(i - start + 1)) == acc * 10 + digit);
                assert(acc * 10 + digit > usize::MAX) by (nonlinear_arith)
                    requires
                        acc > (usize::MAX - digit) / 10,
                        digit < 10,
                ;
            }
            return 0;
        }
        assert(acc * 10 + digit <= usize::MAX) by (nonlinear_arith)
            requires
                acc <= (usize::MAX - digit) / 10,
                digit < 10,
        ;
        acc = acc * 10 + digit;
        i += 1;
    }
    assert(d.take(i - start) =~= d);
    acc
}

proof fn lemma_digits_grow(d: Seq<char>, n: int)
    requires
        0 <= n <= d.len(),
        forall|j: int| 0 <= j < n ==> is_digit(#[trigger] d[j]),
    ensures
        digits_value(d.take(n)) <= digits_value(d),
    decreases d.len(),
{
    if n < d.len() {
        assert(d.drop_last().take(n) =~= d.take(n));
        lemma_digits_grow(d.drop_last(), n);
    } else {
        assert(d.take(n) =~= d);
    }
}

/// What a reply carries.
#[derive(Debug, Clone, Copy, PartialEq, Eq, Structural)]
pub enum ReplyKind {
    /// An `error` field: the request failed.
    Failure,
    /// A `result` field and no `error`.
    Success,
    /// Neither: the slot is released without a value.
    Empty,
}

/// What to do with an inbound message.
pub enum Delivery<T> {
    /// It answers a pending request: complete that request's slot.
    Resolve(T, ReplyKind),
    /// It is a call or notification from the backend: it names a method and answers no
    /// waiting request.
    ServerCall,
    /// Nothing waits for it.
    Drop,
}

/// The pending requests of one session: a counter of outgoing ids and, for each request
/// still waiting, the slot its reply completes.
pub struct PendingRequests<T> {
    next_id: i64,
    pending: HashMap<i64, T>,
}

impl<T> PendingRequests<T> {
    /// The id the next request will get.
    pub closed spec fn next(&self) -> int {
        self.next_id as int
    }

    /// The slots of the requests still waiting, by id.
    pub closed spec fn slots(&self) -> Map<i64, T> {
        self.pending@
    }

    /// Ids start at one, and every waiting id was handed out before.
    pub open spec fn wf(&self) -> bool {
        &&& self.next() >= 1
        &&& forall|id: i64| #[trigger] self.slots().contains_key(id) ==> 1 <= id < self.next()
    }

    pub fn new() -> (r: Self)
        ensures
            r.wf(),
            r.next() == 1,
            r.slots() == Map::<i64, T>::empty(),
    {
        PendingRequests { next_id: 1, pending: HashMap::new() }
    }

    /// Whether another id can be handed out.
    pub fn can_register(&self) -> (r: bool)
        ensures
            r == (self.next() < i64::MAX),
    {
        self.next_id < i64::MAX
    }

    /// Hands out the next id and registers `slot` for its reply.
    pub fn register(&mut self, slot: T) -> (id: i64)
        requires
            old(self).wf(),
            old(self).next() < i64::MAX,
        ensures
            final(self).wf(),
            id == old(self).next(),
            final(self).next() == old(self).next() + 1,
            !old(self).slots().contains_key(id),
            final(self).slots() == old(self).slots().insert(id, slot),
    {
        let id = self.next_id;
        let ghost before = self.pending@;
        self.next_id = id + 1;
        self.pending.insert(id, slot);
        assert forall|k: i64| #[trigger] self.slots().contains_key(k) implies 1 <= k < self.next() by {
            if k != id {
                assert(old(self).slots().contains_key(k));
            }
        }
        id
    }

    /// Removes the slot of request `id`, if it is still waiting: the reader takes it to
    /// deliver a reply, the requester to give up after its timeout. Whichever comes first
    /// gets it; the other gets nothing.
    pub fn take(&mut self, id: i64) -> (r: Option<T>)
        requires
            old(self).wf(),
        ensures
            final(self).wf(),
            final(self).next() == old(self).next(),
            r == (if old(self).slots().contains_key(id) {
                Some(old(self).slots()[id])
            } else {
                None
            }),
            final(self).slots() == old(self).slots().remove(id),
    {
        let ghost before = self.pending@;
        let r = self.pending.remove(&id);
        assert forall|k: i64| #[trigger] self.slots().contains_key(k) implies 1 <= k < self.next() by {
            assert(old(self).slots().contains_key(k));
        }
        r
    }

    /// Decides what an inbound message is for, taking the slot it resolves.
    pub fn dispatch(&mut self, id: Option<i64>, has_error: bool, has_result: bool, has_method: bool) -> (r:
        Delivery<T>)
        requires
            old(self).wf(),
        ensures
            final(self).wf(),
            final(self).next() == old(self).next(),
            match id {
                Some(n) => final(self).slots() == old(self).slots().remove(n) && if old(
                    self,
                ).slots().contains_key(n) {
                    r == Delivery::Resolve(
                        old(self).slots()[n],
                        if has_error {
                            ReplyKind::Failure
                        } else if has_result {
                            ReplyKind::Success
                        } else {
                            ReplyKind::Empty
                        },
                    )
                } else if has_method {
                    r is ServerCall
                } else {
                    r is Drop
                },
                None => final(self).slots() == old(self).slots() && if has_method {
                    r is ServerCall
                } else {
                    r is Drop
                },
            },
    {
        match id {
            Some(n) => match self.take(n) {
                Some(slot) => {
                    let kind = if has_error {
                        ReplyKind::Failure
                    } else if has_result {
                        ReplyKind::Success
                    } else {
                        ReplyKind::Empty
                    };
                    Delivery::Resolve(slot, kind)
                },
                None => if has_method {
                    Delivery::ServerCall
                } else {
                    Delivery::Drop
                },
            },
            None => if has_method {
                Delivery::ServerCall
            } else {
                Delivery::Drop
            },
        }
    }
}

/// A waiting request's slot is handed out exactly once: taking it yields the slot, and
/// any later take of the same id, by the reader or by the timeout, yields nothing. Ids are
/// never reused, since each registration takes an id above every earlier one.
pub proof fn lemma_slot_resolved_once<T>(slots: Map<i64, T>, next: int, id: i64)
    requires
        slots.contains_key(id),
        forall|k: i64| #[trigger] slots.contains_key(k) ==> 1 <= k < next,
    ensures
        slots.remove(id).contains_key(id) == false,
        forall|k: i64| #[trigger] slots.remove(id).contains_key(k) ==> k != id && slots.contains_key(k),
        !slots.contains_key(next as i64) || next > i64::MAX,
{
}

/// The lifecycle of a backend session.
#[derive(Debug, Clone, Copy, PartialEq, Eq, Structural)]
pub enum SessionState {
    NotStarted,
    Running,
    ShuttingDown,
    Stopped,
}

/// What happens to a session.
#[derive(Debug, Clone, Copy, PartialEq, Eq, Structural)]
pub enum SessionEvent {
    /// The process was launched.
    Launched,
    /// The `initialize` request succeeded.
    InitializeSucceeded,
    /// The `initialize` request failed or timed out.
    InitializeFailed,
    /// The workspace is shutting down.
    ShutdownRequested,
    /// The `shutdown` request completed, one way or the other.
    ShutdownAnswered,
    /// The process ended.
    ProcessExited,
}

/// What the session manager must do next.
#[derive(Debug, Clone, Copy, PartialEq, Eq, Structural)]
pub enum SessionAction {
    /// Send the `initialize` request.
    SendInitialize,
    /// Send the `initialized` notification.
    SendInitialized,
    /// Send the `shutdown` request.
    SendShutdown,
    /// Send the `exit` notification, stop the reader and end the process.
    ExitAndTerminate,
    /// Stop the reader and end the process.
    Terminate,
    Nothing,
}

/// The next state of a session and the action to take.
pub open spec fn session_step(s: SessionState, e: SessionEvent) -> (SessionState, SessionAction) {
    match (s, e) {
        (_, SessionEvent::ProcessExited) => (SessionState::Stopped, if s == SessionState::Stopped {
            SessionAction::Nothing
        } else {
            SessionAction::Terminate
        }),
        (SessionState::NotStarted, SessionEvent::Launched) => (SessionState::NotStarted, SessionAction::SendInitialize),
        (SessionState::NotStarted, SessionEvent::InitializeSucceeded) => (
            SessionState::Running,
            SessionAction::SendInitialized,
        ),
        (SessionState::NotStarted, SessionEvent::InitializeFailed) => (SessionState::Stopped, SessionAction::Terminate),
        (SessionState::NotStarted, SessionEvent::ShutdownRequested) => (SessionState::Stopped, SessionAction::Terminate),
        (SessionState::Running, SessionEvent::ShutdownRequested) => (
            SessionState::ShuttingDown,
            SessionAction::SendShutdown,
        ),
        (SessionState::ShuttingDown, SessionEvent::ShutdownAnswered) => (
            SessionState::Stopped,
            SessionAction::ExitAndTerminate,
        ),
        _ => (s, SessionAction::Nothing),
    }
}

/// The next state of a session and the action to take on event `e`: the handshake
/// (`initialize`, then `initialized`) brings it to running; shutdown sends `shutdown`,
/// then `exit`; the process ending stops it from any state.
pub fn next_session_state(s: SessionState, e: SessionEvent) -> (r: (SessionState, SessionAction))
    ensures
        r == session_step(s, e),
{
    match e {
        SessionEvent::ProcessExited => {
            let a = match s {
                SessionState::Stopped => SessionAction::Nothing,
                _ => SessionAction::Terminate,
            };
            (SessionState::Stopped, a)
        },
        _ => match (s, e) {
            (SessionState::NotStarted, SessionEvent::Launched) => (SessionState::NotStarted, SessionAction::SendInitialize),
            (SessionState::NotStarted, SessionEvent::InitializeSucceeded) => (
                SessionState::Running,
                SessionAction::SendInitialized,
            ),
            (SessionState::NotStarted, SessionEvent::InitializeFailed) => (
                SessionState::Stopped,
                SessionAction::Terminate,
            ),
            (SessionState::NotStarted, SessionEvent::ShutdownRequested) => (
                SessionState::Stopped,
                SessionAction::Terminate,
            ),
            (SessionState::Running, SessionEvent::ShutdownRequested) => (
                SessionState::ShuttingDown,
                SessionAction::SendShutdown,
            ),
            (SessionState::ShuttingDown, SessionEvent::ShutdownAnswered) => (
                SessionState::Stopped,
                SessionAction::ExitAndTerminate,
            ),
            _ => (s, SessionAction::Nothing),
        },
    }
}

/// Whether a session in state `s` takes requests other than its handshake: only once the
/// handshake has completed, and not after shutdown began.
pub fn accepts_requests(s: SessionState) -> (r: bool)
    ensures
        r == (s == SessionState::Running),
{
    match s {
        SessionState::Running => true,
        _ => false,
    }
}

} // verus!
