//! Decisions of a regional server towards the central servers: how it
//! frames what it sends, which central it tries next, and what it makes of
//! the answers to its batches and to its registration.

use crate::bytes::{append_bytes, be_u64, push_u64_be, Decoded, FAILURE};
use crate::fmt::{decimal, push_decimal, string_append};
use crate::messages::data_response::{dec_data_response, DataResponseMessage};
use crate::messages::protocol::RegisterRegionalMessage;
use vstd::prelude::*;

verus! {

/// The address under which a regional server reports itself.
pub open spec fn local_ip() -> Seq<char> {
    "127.0.0.1"@
}

/// The IP address a regional server reports to the central servers (the
/// local host).
pub fn get_local_ip() -> (r: String)
    ensures
        r@ == local_ip(),
{
    "127.0.0.1".to_owned()
}

/// A payload framed for a central server: the length of code and payload as
/// a big-endian `u64`, the operation code, then the payload.
pub open spec fn framed_with_code(code: u8, payload: Seq<u8>) -> Seq<u8> {
    be_u64((payload.len() + 1) as u64) + seq![code] + payload
}

/// Frames `payload` with operation code `code`.
pub fn frame_payload_with_code(code: u8, payload: &[u8]) -> (r: Vec<u8>)
    requires
        payload@.len() < u64::MAX,
    ensures
        r@ == framed_with_code(code, payload@),
{
    let packet_size = payload.len() as u64 + 1;
    let mut buf: Vec<u8> = Vec::new();
    push_u64_be(&mut buf, packet_size);
    buf.push(code);
    append_bytes(&mut buf, payload);
    assert(buf@ =~= framed_with_code(code, payload@));
    buf
}

/// The position of the central server to try after the one at `index`,
/// going round the list of `count` addresses.
pub fn next_central(index: usize, count: usize) -> (r: usize)
    requires
        count > 0,
    ensures
        r == (index + 1) % (count as int),
        r < count,
{
    let m = index % count;
    assert((index + 1) % (count as int) == (m + 1) % (count as int)) by (nonlinear_arith)
        requires
            count > 0,
            m == index % count,
    ;
    if m + 1 == count {
        assert((count as int) % (count as int) == 0) by (nonlinear_arith)
            requires
                count > 0,
        ;
        0
    } else {
        assert((m + 1) % (count as int) == m + 1) by (nonlinear_arith)
            requires
                0 <= m + 1 < count,
        ;
        m + 1
    }
}

/// The address where the regional server takes updates from the central
/// servers: `<local ip>:<sync port>`.
pub open spec fn sync_address(sync_port: u16) -> Seq<char> {
    local_ip() + ":"@ + decimal(sync_port as nat)
}

/// The registration of regional `name`, which listens for updates on
/// `sync_port`.
pub fn registration_request(name: String, sync_port: u16) -> (m: RegisterRegionalMessage)
    ensures
        m.name@ == name@,
        m.sync_address@ == sync_address(sync_port),
{
    let mut address = get_local_ip();
    string_append(&mut address, ":");
    push_decimal(&mut address, sync_port as u64);
    RegisterRegionalMessage::new(name, address)
}

/// What `String::from_utf8_lossy` (std) makes of `bytes`: their text, with
/// each invalid sequence replaced by U+FFFD.
pub uninterp spec fn utf8_lossy(bytes: Seq<u8>) -> Seq<char>;

/// `String::from_utf8_lossy` (std). The result is named `utf8_lossy`; for
/// valid UTF-8 the documentation says it is the decoded text, which is
/// stated here.
#[verifier::external_body]
fn lossy_text(bytes: &[u8]) -> (r: String)
    ensures
        r@ == utf8_lossy(bytes@),
        vstd::utf8::valid_utf8(bytes@) ==> r@ == vstd::utf8::decode_utf8(bytes@),
{
    String::from_utf8_lossy(bytes).to_string()
}

/// What the regional server makes of the answer to a batch of transactions.
#[derive(Debug)]
pub enum BatchReply {
    /// The batch is confirmed.
    Confirmed,
    /// The answer could not be read: the batch counts as delivered and the
    /// connection is dropped.
    Unreadable,
    /// The node is not the leader; the batch goes to this address.
    Redirect(String),
    /// The node refused without naming a leader: try the next central server.
    TryNext,
}

/// Abstract value of a batch reply.
pub enum BatchReplyView {
    Confirmed,
    Unreadable,
    Redirect(Seq<char>),
    TryNext,
}

impl View for BatchReply {
    type V = BatchReplyView;

    open spec fn view(&self) -> BatchReplyView {
        match self {
            BatchReply::Confirmed => BatchReplyView::Confirmed,
            BatchReply::Unreadable => BatchReplyView::Unreadable,
            BatchReply::Redirect(a) => BatchReplyView::Redirect(a@),
            BatchReply::TryNext => BatchReplyView::TryNext,
        }
    }
}

/// The meaning of the answer `reply` (the bytes after its length): no
/// answer confirms; an unreadable answer counts as delivered; a failure
/// with a leader address redirects there, one without tries the next node;
/// anything else confirms.
pub open spec fn batch_reply(reply: Seq<u8>) -> BatchReplyView {
    if reply.len() == 0 {
        BatchReplyView::Confirmed
    } else {
        match dec_data_response(reply) {
            Decoded::Value(v, _) => if v.1 == FAILURE {
                match v.3 {
                    Some(p) => if p.len() > 0 {
                        BatchReplyView::Redirect(utf8_lossy(p))
                    } else {
                        BatchReplyView::TryNext
                    },
                    None => BatchReplyView::TryNext,
                }
            } else {
                BatchReplyView::Confirmed
            },
            _ => BatchReplyView::Unreadable,
        }
    }
}

/// Reads the answer of a central server to a batch of transactions. The
/// answer's payload length must not run past its end.
pub fn classify_batch_reply(reply: &[u8]) -> (r: BatchReply)
    requires
        !(dec_data_response(reply@) is Invalid),
    ensures
        r@ == batch_reply(reply@),
{
    if reply.len() == 0 {
        return BatchReply::Confirmed;
    }
    let response = match DataResponseMessage::deserialize(reply) {
        Ok(r) => r,
        Err(_) => return BatchReply::Unreadable,
    };
    if response.status() == FAILURE {
        match response.piggyback() {
            Some(leader_bytes) => BatchReply::Redirect(lossy_text(leader_bytes.as_slice())),
            None => BatchReply::TryNext,
        }
    } else {
        BatchReply::Confirmed
    }
}

/// What the regional server does with the answer to its registration.
#[derive(Debug)]
pub enum RegistrationStep {
    /// Registered.
    Registered,
    /// The node is not the leader: register with the leader at this address.
    AskLeader(String),
    /// Refused: try the next central server.
    TryNext,
}

/// The step after an answer that says whether the registration succeeded
/// and, when it did not, perhaps the leader's address.
pub fn registration_step(success: bool, leader_address: Option<String>) -> (r: RegistrationStep)
    ensures
        success ==> r is Registered,
        !success ==> (leader_address matches Some(a) ==> (r matches RegistrationStep::AskLeader(
            b,
        ) && b@ == a@)),
        !success ==> (leader_address is None ==> r is TryNext),
{
    if success {
        RegistrationStep::Registered
    } else {
        match leader_address {
            Some(a) => RegistrationStep::AskLeader(a),
            None => RegistrationStep::TryNext,
        }
    }
}

// ----------------------------------------------------------------------------
// The registration scan
// ----------------------------------------------------------------------------

/// An answer to a registration request: whether it succeeded and, when it
/// did not, perhaps the leader's address.
pub type RegistrationAnswer = (bool, Option<String>);

/// Abstract value of an answer; `None` stands for no answer at all.
pub type AnswerView = Option<(bool, Option<Seq<char>>)>;

/// What the regional server does next while it looks for a central server
/// that takes its registration.
#[derive(Debug)]
pub enum ScanAction {
    /// Send the registration to this address.
    Ask(String),
    /// The last answer registered the region.
    Registered,
    /// Every central server was tried; none took the registration.
    GiveUp,
}

/// Abstract value of a `ScanAction`.
pub enum ScanActionView {
    Ask(Seq<char>),
    Registered,
    GiveUp,
}

impl View for ScanAction {
    type V = ScanActionView;

    open spec fn view(&self) -> ScanActionView {
        match self {
            ScanAction::Ask(a) => ScanActionView::Ask(a@),
            ScanAction::Registered => ScanActionView::Registered,
            ScanAction::GiveUp => ScanActionView::GiveUp,
        }
    }
}

/// Where the scan stands: the central servers' addresses, the position of
/// the one being tried, and whether the request in flight went to the
/// leader that this one named.
pub struct ScanView {
    pub addresses: Seq<Seq<char>>,
    pub index: int,
    pub to_leader: bool,
}

/// The request for the central server at `index`, or giving up past the
/// last one.
pub open spec fn ask_at(addresses: Seq<Seq<char>>, index: int) -> ScanActionView {
    if 0 <= index < addresses.len() {
        ScanActionView::Ask(addresses[index])
    } else {
        ScanActionView::GiveUp
    }
}

/// The scan after `answer` to the request in flight: a success registers;
/// a refusal that names the leader, from a central server asked directly,
/// sends the registration to that leader (once); anything else (no answer,
/// a refusal without leader, a refusal from the leader) moves on to the
/// next central server. A scan that has given up stays given up.
pub open spec fn scan_step(s: ScanView, answer: AnswerView) -> (ScanView, ScanActionView) {
    let next = ScanView { addresses: s.addresses, index: s.index + 1, to_leader: false };
    if s.index >= s.addresses.len() {
        (s, ScanActionView::GiveUp)
    } else {
        match answer {
            Some((true, _)) => (s, ScanActionView::Registered),
            Some((false, Some(leader))) => if !s.to_leader {
                (ScanView { to_leader: true, ..s }, ScanActionView::Ask(leader))
            } else {
                (next, ask_at(s.addresses, next.index))
            },
            _ => (next, ask_at(s.addresses, next.index)),
        }
    }
}

/// The scan of the central servers for one that takes the registration,
/// each tried once in order.
pub struct RegistrationScan {
    addresses: Vec<String>,
    index: usize,
    to_leader: bool,
}

impl View for RegistrationScan {
    type V = ScanView;

    closed spec fn view(&self) -> ScanView {
        ScanView { addresses: self.addresses.deep_view(), index: self.index as int, to_leader: self.to_leader }
    }
}

impl RegistrationScan {
    /// The scan has not gone past the last address.
    pub closed spec fn wf(&self) -> bool {
        self.index <= self.addresses.len()
    }

    /// A scan of `addresses`, starting with the first.
    pub fn new(addresses: Vec<String>) -> (s: Self)
        ensures
            s.wf(),
            s@ == (ScanView { addresses: addresses.deep_view(), index: 0, to_leader: false }),
    {
        RegistrationScan { addresses, index: 0, to_leader: false }
    }

    /// The first request: to the first address, or giving up without any.
    pub fn first_request(&self) -> (a: ScanAction)
        requires
            self.wf(),
        ensures
            a@ == ask_at(self@.addresses, self@.index),
    {
        self.ask_current()
    }

    fn ask_current(&self) -> (a: ScanAction)
        requires
            self.wf(),
        ensures
            a@ == ask_at(self@.addresses, self@.index),
    {
        if self.index < self.addresses.len() {
            let ghost av = self.addresses.deep_view();
            assert(av[self.index as int] == self.addresses@[self.index as int]@);
            ScanAction::Ask(self.addresses[self.index].clone())
        } else {
            ScanAction::GiveUp
        }
    }

    /// Takes the answer to the request in flight (`None`: no answer) and
    /// says what to do next.
    pub fn on_answer(&mut self, answer: Option<RegistrationAnswer>) -> (a: ScanAction)
        requires
            old(self).wf(),
        ensures
            final(self).wf(),
            ({
                let av: AnswerView = match answer {
                    Some((ok, leader)) => Some((ok, match leader {
                        Some(l) => Some(l@),
                        None => None,
                    })),
                    None => None,
                };
                (final(self)@, a@) == scan_step(old(self)@, av)
            }),
    {
        if self.index >= self.addresses.len() {
            return ScanAction::GiveUp;
        }
        match answer {
            Some((true, _)) => ScanAction::Registered,
            Some((false, Some(leader))) if !self.to_leader => {
                self.to_leader = true;
                ScanAction::Ask(leader)
            },
            _ => {
                self.index = self.index + 1;
                self.to_leader = false;
                self.ask_current()
            },
        }
    }
}

// ----------------------------------------------------------------------------
// The central reporter
// ----------------------------------------------------------------------------

/// What happened to the reporter's last action, or a new batch to report.
#[derive(Debug)]
pub enum ReporterEvent {
    /// A committed batch is ready to be reported.
    NewBatch,
    /// The connection asked for (to a replica or to the leader) is open.
    ConnectOk,
    /// The replica asked for did not take the connection.
    ConnectFailed,
    /// Sending the batch failed.
    SendFailed,
    /// Reading the answer failed.
    ReadFailed,
    /// The answer to the batch, as `classify_batch_reply` reads it.
    Reply(BatchReply),
    /// The leader that a replica named did not take the connection.
    LeaderConnectFailed,
    /// The wait asked for is over.
    Waited,
}

/// Abstract value of a reporter event.
pub enum ReporterEventView {
    NewBatch,
    ConnectOk,
    ConnectFailed,
    SendFailed,
    ReadFailed,
    Reply(BatchReplyView),
    LeaderConnectFailed,
    Waited,
}

impl View for ReporterEvent {
    type V = ReporterEventView;

    open spec fn view(&self) -> ReporterEventView {
        match self {
            ReporterEvent::NewBatch => ReporterEventView::NewBatch,
            ReporterEvent::ConnectOk => ReporterEventView::ConnectOk,
            ReporterEvent::ConnectFailed => ReporterEventView::ConnectFailed,
            ReporterEvent::SendFailed => ReporterEventView::SendFailed,
            ReporterEvent::ReadFailed => ReporterEventView::ReadFailed,
            ReporterEvent::Reply(r) => ReporterEventView::Reply(r@),
            ReporterEvent::LeaderConnectFailed => ReporterEventView::LeaderConnectFailed,
            ReporterEvent::Waited => ReporterEventView::Waited,
        }
    }
}

/// What the reporter does next.
#[derive(Debug)]
pub enum ReporterAction {
    /// Connect to the replica at this position.
    Connect(usize),
    /// Send the batch on the open connection and read the answer.
    Send,
    /// Connect to the leader at this address.
    ConnectLeader(String),
    /// Wait this many milliseconds.
    Wait(u64),
    /// The batch is delivered.
    Done,
}

/// Abstract value of a reporter action.
pub enum ReporterActionView {
    Connect(int),
    Send,
    ConnectLeader(Seq<char>),
    Wait(u64),
    Done,
}

impl View for ReporterAction {
    type V = ReporterActionView;

    open spec fn view(&self) -> ReporterActionView {
        match self {
            ReporterAction::Connect(i) => ReporterActionView::Connect(*i as int),
            ReporterAction::Send => ReporterActionView::Send,
            ReporterAction::ConnectLeader(a) => ReporterActionView::ConnectLeader(a@),
            ReporterAction::Wait(ms) => ReporterActionView::Wait(*ms),
            ReporterAction::Done => ReporterActionView::Done,
        }
    }
}

/// The reporter's state: the replica it works with, the replica where the
/// current round of connection attempts began, how many replicas there
/// are, and whether a connection is open (it stays open across batches).
pub struct ReporterView {
    pub index: int,
    pub start: int,
    pub count: int,
    pub connected: bool,
}

/// The replica after `index`, going round `count` of them.
pub open spec fn rotate(index: int, count: int) -> int {
    (index + 1) % count
}

/// The pause after a round in which no replica took the connection.
pub const ROUND_PAUSE_MS: u64 = 5000;

/// The pause after a connection was lost or a replica refused.
pub const RETRY_PAUSE_MS: u64 = 500;

/// Dropping the connection and moving on to the next replica after a pause.
pub open spec fn drop_and_rotate(s: ReporterView) -> (ReporterView, ReporterActionView) {
    (
        ReporterView { index: rotate(s.index, s.count), connected: false, ..s },
        ReporterActionView::Wait(RETRY_PAUSE_MS),
    )
}

/// Using the open connection, or beginning a round of connection attempts
/// at the current replica.
pub open spec fn go_on(s: ReporterView) -> (ReporterView, ReporterActionView) {
    if s.connected {
        (s, ReporterActionView::Send)
    } else {
        (ReporterView { start: s.index, ..s }, ReporterActionView::Connect(s.index))
    }
}

/// One step of the reporter:
/// - a new batch, or the end of a wait, uses the open connection or begins
///   a round of attempts at the current replica;
/// - an open connection sends the batch;
/// - a failed connection tries the next replica, and back at the round's
///   first one waits `ROUND_PAUSE_MS` before a new round;
/// - a failed send or read drops the connection, moves to the next replica
///   and waits `RETRY_PAUSE_MS`;
/// - a confirmed batch is done and keeps the connection; an unreadable
///   answer is done too, and drops it;
/// - a redirection connects to the leader it names; a refusal without
///   leader, or a leader that does not take the connection, drops the
///   connection, moves on and waits `RETRY_PAUSE_MS`.
pub open spec fn reporter_step(s: ReporterView, ev: ReporterEventView) -> (
    ReporterView,
    ReporterActionView,
) {
    match ev {
        ReporterEventView::NewBatch => go_on(s),
        ReporterEventView::Waited => go_on(s),
        ReporterEventView::ConnectOk => (ReporterView { connected: true, ..s }, ReporterActionView::Send),
        ReporterEventView::ConnectFailed => {
            let next = rotate(s.index, s.count);
            if next == s.start {
                (ReporterView { index: next, connected: false, ..s }, ReporterActionView::Wait(ROUND_PAUSE_MS))
            } else {
                (ReporterView { index: next, connected: false, ..s }, ReporterActionView::Connect(next))
            }
        },
        ReporterEventView::SendFailed => drop_and_rotate(s),
        ReporterEventView::ReadFailed => drop_and_rotate(s),
        ReporterEventView::LeaderConnectFailed => drop_and_rotate(s),
        ReporterEventView::Reply(r) => match r {
            BatchReplyView::Confirmed => (s, ReporterActionView::Done),
            BatchReplyView::Unreadable => (ReporterView { connected: false, ..s }, ReporterActionView::Done),
            BatchReplyView::Redirect(l) => (ReporterView { connected: false, ..s }, ReporterActionView::ConnectLeader(l)),
            BatchReplyView::TryNext => drop_and_rotate(s),
        },
    }
}

/// The regional server's reporter of committed batches to the central
/// replicas.
pub struct CentralReporter {
    index: usize,
    start: usize,
    count: usize,
    connected: bool,
}

impl View for CentralReporter {
    type V = ReporterView;

    closed spec fn view(&self) -> ReporterView {
        ReporterView {
            index: self.index as int,
            start: self.start as int,
            count: self.count as int,
            connected: self.connected,
        }
    }
}

impl CentralReporter {
    /// The positions are those of replicas.
    pub open spec fn wf(&self) -> bool {
        self@.index < self@.count && self@.start < self@.count && 0 <= self@.index && 0 <= self@.start
    }

    /// A reporter for `count` replicas, not connected, to start with the
    /// first one.
    pub fn new(count: usize) -> (r: Self)
        requires
            count > 0,
        ensures
            r.wf(),
            r@ == (ReporterView { index: 0, start: 0, count: count as int, connected: false }),
    {
        CentralReporter { index: 0, start: 0, count, connected: false }
    }

    /// Takes what happened and says what to do next.
    pub fn on_event(&mut self, ev: ReporterEvent) -> (a: ReporterAction)
        requires
            old(self).wf(),
        ensures
            final(self).wf(),
            (final(self)@, a@) == reporter_step(old(self)@, ev@),
    {
        match ev {
            ReporterEvent::NewBatch | ReporterEvent::Waited => {
                if self.connected {
                    ReporterAction::Send
                } else {
                    self.start = self.index;
                    ReporterAction::Connect(self.index)
                }
            },
            ReporterEvent::ConnectOk => {
                self.connected = true;
                ReporterAction::Send
            },
            ReporterEvent::ConnectFailed => {
                let next = next_central(self.index, self.count);
                self.index = next;
                self.connected = false;
                assert(self.index as int == rotate(old(self)@.index, old(self)@.count)) by {
                    assert((old(self)@.index + 1) % old(self)@.count == (old(self).index + 1) % (old(
                        self,
                    ).count as int));
                }
                if next == self.start {
                    ReporterAction::Wait(ROUND_PAUSE_MS)
                } else {
                    ReporterAction::Connect(next)
                }
            },
            ReporterEvent::Reply(BatchReply::Confirmed) => ReporterAction::Done,
            ReporterEvent::Reply(BatchReply::Unreadable) => {
                self.connected = false;
                ReporterAction::Done
            },
            ReporterEvent::Reply(BatchReply::Redirect(leader)) => {
                self.connected = false;
                ReporterAction::ConnectLeader(leader)
            },
            _ => {
                self.index = next_central(self.index, self.count);
                self.connected = false;
                ReporterAction::Wait(RETRY_PAUSE_MS)
            },
        }
    }
}

/// A delivery ends (`Done`) only on an answer that confirms the batch or
/// cannot be read. A refusal without leader, a failed send, a failed read
/// and a leader that does not take the connection all drop the connection,
/// move to the next replica and wait 500 ms, so the batch is sent again.
pub proof fn lemma_reporter_ends_only_on_answers(s: ReporterView, ev: ReporterEventView)
    requires
        0 <= s.index < s.count,
        0 <= s.start < s.count,
    ensures
        reporter_step(s, ev).1 is Done <==> (ev matches ReporterEventView::Reply(r) && (
        r is Confirmed || r is Unreadable)),
        (ev matches ReporterEventView::Reply(r) && r is TryNext) || ev is SendFailed || ev is ReadFailed
            || ev is LeaderConnectFailed ==> reporter_step(s, ev) == (
            ReporterView { index: (s.index + 1) % s.count, start: s.start, count: s.count, connected: false },
            ReporterActionView::Wait(500),
        ),
{
}

/// A failed connection moves to the next replica; only when that brings
/// the reporter back to the replica where the round began does it wait
/// 5 s. A confirmed batch keeps the connection open for the next one.
pub proof fn lemma_reporter_rounds(s: ReporterView)
    requires
        0 <= s.index < s.count,
        0 <= s.start < s.count,
    ensures
        ({
            let next = (s.index + 1) % s.count;
            let (s2, a) = reporter_step(s, ReporterEventView::ConnectFailed);
            &&& s2.index == next && !s2.connected && s2.start == s.start
            &&& next == s.start ==> a == ReporterActionView::Wait(5000)
            &&& next != s.start ==> a == ReporterActionView::Connect(next)
        }),
        reporter_step(s, ReporterEventView::Reply(BatchReplyView::Confirmed)) == (
            s,
            ReporterActionView::Done,
        ),
{
}

/// A redirection connects to the leader it names; an open connection is
/// used to send; a new batch, or the end of a wait, sends on the open
/// connection or starts a round of attempts at the current replica.
pub proof fn lemma_reporter_connections(s: ReporterView, leader: Seq<char>)
    ensures
        reporter_step(s, ReporterEventView::Reply(BatchReplyView::Redirect(leader))).1
            == ReporterActionView::ConnectLeader(leader),
        !reporter_step(s, ReporterEventView::Reply(BatchReplyView::Redirect(leader))).0.connected,
        reporter_step(s, ReporterEventView::ConnectOk) == (
            ReporterView { index: s.index, start: s.start, count: s.count, connected: true },
            ReporterActionView::Send,
        ),
        s.connected ==> reporter_step(s, ReporterEventView::NewBatch) == (s, ReporterActionView::Send)
            && reporter_step(s, ReporterEventView::Waited) == (s, ReporterActionView::Send),
        !s.connected ==> reporter_step(s, ReporterEventView::NewBatch) == (
            ReporterView { index: s.index, start: s.index, count: s.count, connected: false },
            ReporterActionView::Connect(s.index),
        ) && reporter_step(s, ReporterEventView::Waited) == (
            ReporterView { index: s.index, start: s.index, count: s.count, connected: false },
            ReporterActionView::Connect(s.index),
        ),
{
}

} // verus!
