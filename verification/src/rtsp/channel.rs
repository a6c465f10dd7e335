//! The session channel state machine: it serialises commands into the
//! transmit buffer, matches responses to pending commands by `CSeq`,
//! retries once on a 401 challenge, and routes interleaved media packets
//! through the reorder queue.
//!
//! The channel owns no stream and no queues: the surrounding process reads
//! and writes bytes and routes the emitted outputs, and the channel decides
//! everything else.

use vstd::prelude::*;
use vstd::multiset::Multiset;
use vstd::seq_lib::group_to_multiset_ensures;
use crate::bytes::{
    crlf_at, dec_repr, find_crlf_index, find_index, is_digit, lemma_find_crlf_index,
    lemma_find_index, parse_u32_spec,
};
use crate::bytes;
use crate::http::header::{
    is_name_byte, is_value_byte, spec_parse_header, spec_trim, trim_left, trim_right,
    valid_header_name, valid_header_value,
};
use crate::rtsp::method::{method_name, spec_parse_method};
use crate::http::version::Version;
use crate::rtp::packet::{spec_be16, Packet};
use crate::rtp::queue::ReorderQueue;
use crate::rtsp::auth::{Authorizer, AuthorizerError};
use crate::rtsp::buffer::{Buffer, BufferError};
use crate::rtsp::command::{Command, CommandError, Ctrl, Request};
use crate::rtsp::command;
use crate::rtsp::method::Method;
use crate::rtsp::request::{crlf, spec_header_line, spec_request_line, RequestBuilder};
use crate::rtsp::response::{ParseError, ParseItem, Parser, State};
use crate::rtsp::status::Status;
use crate::rtsp::uri::Uri;
use crate::sdp::Sdp;

verus! {

/// A fault inside the channel. Most shut the session down; an incomplete
/// response only waits for more bytes.
pub enum ChannelError {
    ParseResponse(ParseError),
    UnexpectedStatus(Status),
    HeaderTooLong,
    RequestTooLong,
    BufferError(BufferError),
    IncompleteResponse,
    BadResponse,
    InvalidCSeq,
    InvalidAuthorization(AuthorizerError),
    Unauthorized,
}

impl ChannelError {
    /// What a reply sink is told of this fault: unexpected statuses,
    /// refusals and bad responses pass through; the rest fold to unknown.
    pub fn to_command_error(self) -> (r: CommandError)
        ensures
            (match self {
                ChannelError::UnexpectedStatus(s) => r == CommandError::UnexpectedStatus(s),
                ChannelError::Unauthorized => r == CommandError::Unauthorized,
                ChannelError::BadResponse => r == CommandError::BadResponse,
                _ => r == CommandError::Unknown,
            }),
    {
        match self {
            ChannelError::UnexpectedStatus(s) => CommandError::UnexpectedStatus(s),
            ChannelError::Unauthorized => CommandError::Unauthorized,
            ChannelError::BadResponse => CommandError::BadResponse,
            _ => CommandError::Unknown,
        }
    }
}

/// What the channel hands outward: a reply for a sink, or a media packet
/// for the output queue.
pub enum Output {
    Reply { id: u64, result: Result<Sdp, CommandError> },
    Media(Packet),
}

/// The sink identifiers of the replies in `s`.
pub open spec fn reply_ids(s: Seq<Output>) -> Multiset<u64>
    decreases s.len(),
{
    if s.len() == 0 {
        Multiset::empty()
    } else {
        match s.last() {
            Output::Reply { id, result } => reply_ids(s.drop_last()).insert(id),
            Output::Media(_) => reply_ids(s.drop_last()),
        }
    }
}

/// Every reply in `s` reports the command as cancelled.
pub open spec fn all_cancelled(s: Seq<Output>) -> bool {
    forall|i: int| 0 <= i < s.len() ==> (match #[trigger] s[i] {
        Output::Reply { id, result } => result == Err::<Sdp, CommandError>(CommandError::Cancelled),
        Output::Media(_) => true,
    })
}

/// A command waiting for its response, with how often it has been retried.
pub struct PendingEntry {
    cseq: u32,
    request: Request,
    retry_count: u32,
}

/// The channel's `User-Agent` value.
pub open spec fn user_agent() -> Seq<u8> {
    seq![0x72u8, 0x73, 0x2d, 0x73, 0x74, 0x72, 0x65, 0x61, 0x6d, 0x65, 0x72]
}

/// The header name `CSeq`.
pub open spec fn cseq_header() -> Seq<u8> {
    seq![0x43u8, 0x53, 0x65, 0x71]
}

/// The header name `User-Agent`.
pub open spec fn user_agent_header() -> Seq<u8> {
    seq![0x55u8, 0x73, 0x65, 0x72, 0x2d, 0x41, 0x67, 0x65, 0x6e, 0x74]
}

/// The header name `Authorization`.
pub open spec fn authorization_header() -> Seq<u8> {
    seq![0x41u8, 0x75, 0x74, 0x68, 0x6f, 0x72, 0x69, 0x7a, 0x61, 0x74, 0x69, 0x6f, 0x6e]
}

/// The bytes the channel emits for one command: request line, `CSeq`,
/// `User-Agent`, an `Authorization` value when one is given, and the blank
/// line.
pub open spec fn spec_request_bytes(m: Method, uri: Seq<u8>, cseq: u32, auth: Option<Seq<u8>>) -> Seq<
    u8,
> {
    spec_request_line(m, uri, Version(1, 0)) + spec_header_line(cseq_header(), dec_repr(cseq as nat))
        + spec_header_line(user_agent_header(), user_agent()) + (match auth {
        Option::None => Seq::<u8>::empty(),
        Option::Some(a) => spec_header_line(authorization_header(), a),
    }) + crlf()
}



/// What one drained retry entry leaves behind: re-serialised under the
/// next sequence number and pending again; or the channel shut down on a
/// full transmit buffer; or, only when a Digest answer failed, the one
/// command failed with `Unknown`. When the authenticator needs no outside
/// call, the first two are tied exactly to the space condition.
pub open spec fn single_retry_post(pre: Channel, post: Channel, pre_out: Seq<Output>, post_out: Seq<
    Output,
>) -> bool {
    let ent = pre.spec_retry()[0];
    let sent = spec_request_bytes(ent.1, ent.2, pre.spec_cseq(), spec_fixed_auth_value(
        pre.spec_authorizer(),
    ));
    &&& post.retry_len() == 0
    &&& ({
        ||| (post_out == pre_out && post.pending_keys() == pre.pending_keys().push(pre.spec_cseq())
            && post.spec_cseq() == pre.spec_cseq() + 1 && post.spec_shutdown()
            == pre.spec_shutdown() && (exists|v: Option<Seq<u8>>|
            auth_value_shape(pre.spec_authorizer(), v) && post.spec_tx() == pre.spec_tx()
                + spec_request_bytes(ent.1, ent.2, pre.spec_cseq(), v)))
        ||| (post.spec_shutdown() && post_out.len() >= pre_out.len() && post_out.subrange(
            0,
            pre_out.len() as int,
        ) == pre_out && all_cancelled(post_out.skip(pre_out.len() as int)))
        ||| ((pre.spec_authorizer() matches Some(a) && a is Digest) && post.spec_tx()
            == pre.spec_tx() && post.pending_keys() == pre.pending_keys() && post.spec_cseq()
            == pre.spec_cseq() + 1 && one_reply(
            post_out.skip(pre_out.len() as int),
            ent.0,
            Err(CommandError::Unknown),
        ))
    })
    &&& (!(pre.spec_authorizer() matches Some(a) && a is Digest) ==> (
    if !Channel::buffer_refuses(pre.spec_tx_buf(), sent.len() as int) {
        post_out == pre_out && post.pending_keys() == pre.pending_keys().push(pre.spec_cseq())
            && post.spec_cseq() == pre.spec_cseq() + 1 && post.spec_shutdown()
            == pre.spec_shutdown() && post.spec_tx() == pre.spec_tx() + sent
    } else {
        post.spec_shutdown() && all_cancelled(post_out.skip(pre_out.len() as int))
    }))
}

/// The `Authorization` value when the authenticator needs no outside call:
/// none at all, or the precomputed Basic answer. For Digest the value is
/// not a function of the state.
pub open spec fn spec_fixed_auth_value(a: Option<Authorizer>) -> Option<Seq<u8>> {
    match a {
        Option::None => None,
        Option::Some(Authorizer::Basic(b)) => Some(b.spec_auth()),
        Option::Some(Authorizer::Digest(d)) => None,
    }
}

/// The `Authorization` value an authenticator state can have produced.
pub open spec fn auth_value_shape(a: Option<Authorizer>, v: Option<Seq<u8>>) -> bool {
    match a {
        Option::None => v is None,
        Option::Some(x) => v matches Some(s) && x.answer_shape(s),
    }
}


/// The header name `cseq`, lower case.
pub open spec fn cseq_name_lower() -> Seq<u8> {
    seq![0x63u8, 0x73, 0x65, 0x71]
}

/// The header name `www-authenticate`, lower case.
pub open spec fn www_authenticate_name_lower() -> Seq<u8> {
    seq![0x77u8, 0x77, 0x77, 0x2d, 0x61, 0x75, 0x74, 0x68, 0x65, 0x6e, 0x74, 0x69, 0x63, 0x61,
        0x74, 0x65]
}

/// What the channel gathers from a response's parsed items: the first
/// `CSeq` value, whether its value failed to read, the first
/// `WWW-Authenticate` value, the status, and the body.
pub struct Collected {
    pub cseq: Option<u32>,
    pub bad_cseq: bool,
    pub www: Option<Seq<u8>>,
    pub status: Option<Status>,
    pub body: Option<Seq<u8>>,
}

pub open spec fn spec_collect_empty() -> Collected {
    Collected { cseq: None, bad_cseq: false, www: None, status: None, body: None }
}

/// Folds one parsed item into what the channel has gathered: the first
/// `CSeq`-named header is read as the sequence number, the first
/// `WWW-Authenticate`-named one is kept, the status and body are taken as
/// they come.
pub open spec fn spec_collect_step(acc: Collected, item: crate::rtsp::response::ItemModel) -> Collected {
    match item {
        crate::rtsp::response::ItemModel::Header(n, v) => {
            if acc.cseq is None && !acc.bad_cseq && crate::bytes::eq_ignore_case(
                n,
                cseq_name_lower(),
            ) {
                match parse_u32_spec(v) {
                    Result::Ok(c) => Collected { cseq: Some(c), ..acc },
                    Result::Err(e) => Collected { bad_cseq: true, ..acc },
                }
            } else if acc.www is None && crate::bytes::eq_ignore_case(
                n,
                www_authenticate_name_lower(),
            ) {
                Collected { www: Some(v), ..acc }
            } else {
                acc
            }
        },
        crate::rtsp::response::ItemModel::Status(st) => Collected { status: Some(st), ..acc },
        crate::rtsp::response::ItemModel::Body(b) => Collected { body: Some(b), ..acc },
        crate::rtsp::response::ItemModel::Protocol(pr) => acc,
    }
}

/// The gathering fold over a whole item run, first item first.
pub open spec fn spec_collect(items: Seq<crate::rtsp::response::ItemModel>) -> Collected
    decreases items.len(),
{
    if items.len() == 0 {
        spec_collect_empty()
    } else {
        spec_collect_step(spec_collect(items.drop_last()), items.last())
    }
}

/// A bad `CSeq` value stays bad however much more is gathered.
proof fn lemma_collect_bad_persists(items: Seq<crate::rtsp::response::ItemModel>, k: int)
    requires
        0 <= k <= items.len(),
        spec_collect(items.subrange(0, k)).bad_cseq,
    ensures
        spec_collect(items).bad_cseq,
    decreases items.len() - k,
{
    if k < items.len() {
        assert(items.subrange(0, k + 1).drop_last() =~= items.subrange(0, k));
        assert(items.subrange(0, k + 1).last() == items[k]);
        lemma_collect_bad_persists(items, k + 1);
    } else {
        assert(items.subrange(0, k) =~= items);
    }
}

/// What dispatching one completed response leaves behind: a missing or
/// unknown `CSeq` is refused with everything unchanged; a known one has
/// its command leave the pending map and `spec_dispatch_outcome` decide
/// what its sink receives.
pub open spec fn spec_dispatch_post(
    pre: Channel,
    post: Channel,
    pre_out: Seq<Output>,
    post_out: Seq<Output>,
    cseq_val: Option<u32>,
    status: Option<Status>,
    www: Option<Seq<u8>>,
    body: Option<Seq<u8>>,
    ok: bool,
) -> bool {
    &&& post.spec_cseq() == pre.spec_cseq()
    &&& post.spec_tx() == pre.spec_tx()
    &&& post.spec_shutdown() == pre.spec_shutdown()
    &&& post_out.len() >= pre_out.len()
    &&& post_out.subrange(0, pre_out.len() as int) == pre_out
    &&& (!ok <==> (match cseq_val {
        Option::None => true,
        Option::Some(k) => !pre.pending_keys().contains(k),
    }))
    &&& (!ok ==> post == pre && post_out == pre_out)
    &&& (cseq_val matches Some(k) ==> pre.pending_keys().contains(k) ==> (exists|i: int|
        0 <= i < pre.spec_pending().len() && #[trigger] pre.spec_pending()[i].0 == k
            && post.spec_pending() == pre.spec_pending().remove(i) && spec_dispatch_outcome(
            status,
            www,
            body,
            pre.spec_pending()[i].2,
            pre.spec_pending()[i].1,
            pre.spec_user(),
            pre.spec_pass(),
            pre.retry_len(),
            post.retry_len(),
            post_out.skip(pre_out.len() as int),
            post.spec_authorizer(),
        )))
}


/// The head of the receive buffer cannot be acted on yet: it is empty, an
/// interleaved frame still short of its span, or a response the parser
/// still waits on within the header and body limits.
pub open spec fn rx_head_blocked(data: Seq<u8>) -> bool {
    ||| data.len() == 0
    ||| (data[0] == 0x24 && (data.len() < 4 || 4 + spec_be16(data, 2) > data.len()))
    ||| (data[0] != 0x24 && ({
        let dv = crate::rtsp::response::spec_drive(
            crate::rtsp::response::spec_initial_model(),
            data,
        );
        let c = spec_collect(dv.items);
        &&& !c.bad_cseq
        &&& ((dv.error == Some(ParseError::MissingEndOfLine) && data.len() <= 1024) || (
        dv.error is None && !(dv.model.state is Done) && dv.model.header_length
            + dv.model.content_length - dv.model.pos <= 32768))
    }))
}

pub struct Channel {
    cseq: u32,
    buffer_rx: Buffer,
    buffer_tx: Buffer,
    cmd_pending: Vec<PendingEntry>,
    cmd_retry: Vec<PendingEntry>,
    authorizer: Option<Authorizer>,
    user: Option<Vec<u8>>,
    pass: Vec<u8>,
    reorder: ReorderQueue,
    shutdown: bool,
}

impl Channel {
    pub closed spec fn spec_cseq(&self) -> u32 {
        self.cseq
    }

    pub closed spec fn spec_shutdown(&self) -> bool {
        self.shutdown
    }

    pub closed spec fn spec_tx(&self) -> Seq<u8> {
        self.buffer_tx@
    }

    pub closed spec fn spec_rx(&self) -> Seq<u8> {
        self.buffer_rx@
    }

    pub closed spec fn spec_authorizer(&self) -> Option<Authorizer> {
        self.authorizer
    }

    /// The buffered reorder-queue sequence numbers, nearest first.
    pub closed spec fn spec_reorder_seqs(&self) -> Seq<u16> {
        self.reorder.spec_seqs()
    }

    /// The last media sequence number delivered, none yet at the start.
    pub closed spec fn spec_reorder_last(&self) -> Option<u16> {
        self.reorder.spec_last()
    }

    /// The reorder queue's bound.
    pub closed spec fn spec_reorder_max(&self) -> usize {
        self.reorder.spec_max_len()
    }

    /// The receive buffer as a value, for cursor-level conditions.
    pub closed spec fn spec_rx_buf(&self) -> Buffer {
        self.buffer_rx
    }

    /// The transmit buffer as a value, for cursor-level conditions.
    pub closed spec fn spec_tx_buf(&self) -> Buffer {
        self.buffer_tx
    }

    /// The staged policy of `Buffer::get_write_slice` refuses `n` fresh
    /// bytes: neither tail, compaction nor growth can make room.
    pub open spec fn buffer_refuses(b: Buffer, n: int) -> bool {
        n > b.spec_read_pos() + b.tail_space() && n > b.spec_max_capacity() - b.spec_write_pos()
    }

    /// The `CSeq` keys of the pending commands, in intake order.
    pub closed spec fn pending_keys(&self) -> Seq<u32> {
        self.cmd_pending@.map_values(|e: PendingEntry| e.cseq)
    }

    /// The sink identifiers the channel still owes a reply: pending first,
    /// then the retry queue.
    pub closed spec fn owned_ids(&self) -> Multiset<u64> {
        self.cmd_pending@.map_values(|e: PendingEntry| command::spec_req_id(e.request)).to_multiset()
            .add(
            self.cmd_retry@.map_values(|e: PendingEntry| command::spec_req_id(e.request)).to_multiset(),
        )
    }

    pub closed spec fn retry_len(&self) -> int {
        self.cmd_retry@.len() as int
    }

    /// The retried commands as (sink id, method, target, retry count), in
    /// queue order.
    pub closed spec fn spec_retry(&self) -> Seq<(u64, Method, Seq<u8>, u32)> {
        self.cmd_retry@.map_values(
            |e: PendingEntry| (
                command::spec_req_id(e.request),
                command::spec_req_method(e.request),
                command::spec_req_url(e.request).spec_full(),
                e.retry_count,
            ),
        )
    }

    /// The channel invariant: buffers and reorder queue well formed, the
    /// sequence counter positive, pending keys unique and all below it.
    pub closed spec fn wf(&self) -> bool {
        &&& self.buffer_rx.wf()
        &&& self.buffer_tx.wf()
        &&& self.reorder.inv()
        &&& self.cseq >= 1
        &&& forall|i: int| 0 <= i < self.pending_keys().len() ==> #[trigger] self.pending_keys()[i]
            < self.cseq
        &&& forall|i: int, j: int| 0 <= i < j < self.pending_keys().len()
            ==> #[trigger] self.pending_keys()[i] != #[trigger] self.pending_keys()[j]
    }

    /// Public face of the invariant.
    pub open spec fn inv(&self) -> bool {
        self.wf()
    }

    /// A fresh channel: the sequence counter starts at one, nothing is
    /// pending, no authenticator is installed.
    pub fn new() -> (r: Self)
        ensures
            r.inv(),
            r.spec_cseq() == 1,
            !r.spec_shutdown(),
            r.spec_tx() == Seq::<u8>::empty(),
            r.spec_rx() == Seq::<u8>::empty(),
            r.owned_ids() == Multiset::<u64>::empty(),
            r.spec_authorizer() is None,
            r.spec_user() is None,
            r.spec_pass() == Seq::<u8>::empty(),
            r.spec_rx_buf().spec_max_capacity() == 524288,
            r.spec_tx_buf().spec_max_capacity() == 524288,
    {
        let r = Channel {
            cseq: 1,
            buffer_rx: Buffer::new(524288),
            buffer_tx: Buffer::new(524288),
            cmd_pending: Vec::new(),
            cmd_retry: Vec::new(),
            authorizer: None,
            user: None,
            pass: Vec::new(),
            reorder: ReorderQueue::new(16),
            shutdown: false,
        };
        proof {
            broadcast use group_to_multiset_ensures;

            assert(r.pending_keys() =~= Seq::<u32>::empty());
            assert(r.owned_ids() =~= Multiset::<u64>::empty());
        }
        r
    }

    pub closed spec fn spec_user(&self) -> Option<Seq<u8>> {
        match self.user {
            Option::None => None,
            Option::Some(u) => Some(u@),
        }
    }

    pub closed spec fn spec_pass(&self) -> Seq<u8> {
        self.pass@
    }

    /// Sets the user name for authentication.
    pub fn user(self, user: &[u8]) -> (r: Self)
        ensures
            r.spec_user() == Some(user@),
            r.spec_pass() == self.spec_pass(),
            r.inv() == self.inv(),
            r.spec_cseq() == self.spec_cseq(),
            r.spec_shutdown() == self.spec_shutdown(),
            r.spec_tx() == self.spec_tx(),
            r.spec_rx() == self.spec_rx(),
            r.owned_ids() == self.owned_ids(),
            r.spec_authorizer() == self.spec_authorizer(),
    {
        let r = Channel { user: Some(bytes::copy_to_vec(user)), ..self };
        proof {
            assert(r.pending_keys() =~= self.pending_keys());
            assert(r.owned_ids() =~= self.owned_ids());
        }
        r
    }

    /// Sets the password for authentication.
    pub fn pass(self, pass: &[u8]) -> (r: Self)
        ensures
            r.spec_pass() == pass@,
            r.spec_user() == self.spec_user(),
            r.inv() == self.inv(),
            r.spec_cseq() == self.spec_cseq(),
            r.spec_shutdown() == self.spec_shutdown(),
            r.spec_tx() == self.spec_tx(),
            r.spec_rx() == self.spec_rx(),
            r.owned_ids() == self.owned_ids(),
            r.spec_authorizer() == self.spec_authorizer(),
    {
        let r = Channel { pass: bytes::copy_to_vec(pass), ..self };
        proof {
            assert(r.pending_keys() =~= self.pending_keys());
            assert(r.owned_ids() =~= self.owned_ids());
        }
        r
    }
}


/// Appending an output changes the owed replies in the obvious way.
proof fn lemma_reply_ids_push(s: Seq<Output>, o: Output)
    ensures
        reply_ids(s.push(o)) == (match o {
            Output::Reply { id, result } => reply_ids(s).insert(id),
            Output::Media(_) => reply_ids(s),
        }),
{
    assert(s.push(o).drop_last() =~= s);
    assert(s.push(o).last() == o);
}

impl Channel {
    /// The next sequence number; they are handed out in order, once each.
    fn next_cseq(&mut self) -> (r: u32)
        requires
            old(self).cseq < u32::MAX,
        ensures
            r == old(self).cseq,
            final(self).cseq == old(self).cseq + 1,
            *final(self) == (Channel { cseq: (old(self).cseq + 1) as u32, ..*old(self) }),
    {
        let cseq = self.cseq;
        self.cseq = self.cseq + 1;
        cseq
    }

    /// Builds an authenticator from a challenge: no challenge value is a
    /// bad response, no configured user is a refusal, a Basic challenge
    /// always installs the Basic answer, and a Digest challenge is decided
    /// by the outside parser. A value that is not ASCII is refused before
    /// the outside parser sees it.
    pub fn create_authorizer(user: &Option<Vec<u8>>, pass: &[u8], www_authenticate: Option<&[u8]>) -> (r:
        Result<Authorizer, ChannelError>)
        ensures
            www_authenticate is None ==> (r matches Err(e) && e is BadResponse),
            www_authenticate is Some && user is None ==> (r matches Err(e) && e is Unauthorized),
            www_authenticate is Some && user is Some ==> (r is Ok || (r matches Err(e)
                && e is InvalidAuthorization)),
            www_authenticate matches Some(w) ==> user matches Some(u) ==> crate::bytes::all_ascii(w@)
                ==> (match find_index(w@, 0x20, 0) {
                Option::None => r matches Err(e) && e is InvalidAuthorization,
                Option::Some(sp) => {
                    let scheme = w@.subrange(0, sp);
                    if scheme == crate::rtsp::auth::basic_token() {
                        r matches Ok(a) && a matches Authorizer::Basic(b) && b.spec_auth()
                            == crate::rtsp::auth::spec_basic_answer(u@, pass@)
                    } else if scheme == crate::rtsp::auth::digest_token() {
                        r matches Ok(a) ==> (a matches Authorizer::Digest(d) && d.spec_username()
                            == u@ && d.spec_password() == pass@)
                    } else {
                        r matches Err(e) && e is InvalidAuthorization
                    }
                },
            }),
    {
        match www_authenticate {
            Option::Some(www) => match user {
                Option::Some(u) => {
                    if !bytes::is_ascii(www) {
                        // the outside Digest parser aborts on a multi-byte
                        // character: refuse such a challenge outright
                        return Err(ChannelError::InvalidAuthorization(
                            crate::rtsp::auth::AuthorizerError::InvalidHeader,
                        ));
                    }
                    match Authorizer::new(u.as_slice(), pass, www) {
                        Result::Ok(a) => Ok(a),
                        Result::Err(e) => Err(ChannelError::InvalidAuthorization(e)),
                    }
                },
                Option::None => Err(ChannelError::Unauthorized),
            },
            Option::None => Err(ChannelError::BadResponse),
        }
    }

    /// Fails every pending and retried command with `Cancelled` and marks
    /// the channel down. No command is lost: the cancelled replies carry
    /// exactly the sink identifiers the channel still owed.
    fn shutdown(&mut self, outputs: &mut Vec<Output>)
        requires
            old(self).inv(),
        ensures
            final(self).inv(),
            final(self).spec_shutdown(),
            final(self).owned_ids() == Multiset::<u64>::empty(),
            final(self).spec_cseq() == old(self).spec_cseq(),
            final(self).buffer_tx == old(self).buffer_tx,
            final(self).buffer_rx == old(self).buffer_rx,
            final(self).spec_tx() == old(self).spec_tx(),
            final(self).spec_rx() == old(self).spec_rx(),
            final(self).spec_user() == old(self).spec_user(),
            final(self).spec_pass() == old(self).spec_pass(),
            final(self).spec_authorizer() == old(self).spec_authorizer(),
            final(self).retry_len() == 0,
            final(self).pending_keys().len() == 0,
            final(outputs)@.subrange(0, old(outputs)@.len() as int) == old(outputs)@,
            final(outputs)@.len() >= old(outputs)@.len(),
            reply_ids(final(outputs)@.skip(old(outputs)@.len() as int)) == old(self).owned_ids(),
            all_cancelled(final(outputs)@.skip(old(outputs)@.len() as int)),
    {
        proof {
            broadcast use group_to_multiset_ensures;
        }
        let ghost base = outputs@.len() as int;
        self.shutdown = true;
        proof {
            assert(self.pending_keys() =~= old(self).pending_keys());
            assert(self.owned_ids() =~= old(self).owned_ids());
            assert(outputs@.skip(base) =~= Seq::<Output>::empty());
        }
        loop
            invariant
                self.buffer_rx.wf(),
                self.buffer_tx.wf(),
                self.reorder.inv(),
                self.cseq >= 1,
                forall|i: int| 0 <= i < self.pending_keys().len() ==> #[trigger] self.pending_keys()[i]
                    < self.cseq,
                forall|i: int, j: int| 0 <= i < j < self.pending_keys().len()
                    ==> #[trigger] self.pending_keys()[i] != #[trigger] self.pending_keys()[j],
                self.shutdown,
                self.cseq == old(self).cseq,
                self.buffer_tx == old(self).buffer_tx,
                self.buffer_rx == old(self).buffer_rx,
                self.user == old(self).user,
                self.pass == old(self).pass,
                self.authorizer == old(self).authorizer,
                0 <= base <= outputs@.len(),
                outputs@.subrange(0, base) == old(outputs)@,
                base == old(outputs)@.len(),
                self.owned_ids().add(reply_ids(outputs@.skip(base))) =~= old(self).owned_ids(),
                all_cancelled(outputs@.skip(base)),
            ensures
                self.cmd_pending@.len() == 0,
                self.cmd_retry@.len() == 0,
            decreases self.cmd_pending@.len() + self.cmd_retry@.len(),
        {
            proof {
                broadcast use group_to_multiset_ensures;
            }
            let ghost pre = *self;
            let ghost pre_out = outputs@;
            let entry_opt = match self.cmd_pending.pop() {
                Option::Some(e) => Some(e),
                Option::None => self.cmd_retry.pop(),
            };
            let entry = match entry_opt {
                Option::Some(e) => e,
                Option::None => {
                    break;
                },
            };
            proof {
                let f = |e: PendingEntry| command::spec_req_id(e.request);
                let pend_pre = pre.cmd_pending@.map_values(f);
                let retry_pre = pre.cmd_retry@.map_values(f);
                let pend_now = self.cmd_pending@.map_values(f);
                let retry_now = self.cmd_retry@.map_values(f);
                if pre.cmd_pending@.len() > 0 {
                    assert(pend_now =~= pend_pre.drop_last());
                    assert(pend_pre =~= pend_now.push(command::spec_req_id(entry.request)));
                    assert(retry_now == retry_pre);
                    assert(self.pending_keys() =~= pre.pending_keys().drop_last());
                    assert(forall|i: int| 0 <= i < self.pending_keys().len()
                        ==> self.pending_keys()[i] == pre.pending_keys()[i]);
                } else {
                    assert(retry_now =~= retry_pre.drop_last());
                    assert(retry_pre =~= retry_now.push(command::spec_req_id(entry.request)));
                    assert(pend_now == pend_pre);
                    assert(self.pending_keys() =~= pre.pending_keys());
                }
                assert(pre.owned_ids() =~= self.owned_ids().insert(command::spec_req_id(entry.request)));
            }
            let (id, result) = entry.request.cancel(CommandError::Cancelled);
            outputs.push(Output::Reply { id, result });
            proof {
                assert(outputs@.skip(base) =~= pre_out.skip(base).push(Output::Reply { id, result }));
                lemma_reply_ids_push(pre_out.skip(base), Output::Reply { id, result });
                assert(self.owned_ids().add(reply_ids(outputs@.skip(base))) =~= old(self).owned_ids());
                assert(all_cancelled(outputs@.skip(base))) by {
                    assert(forall|i: int| 0 <= i < pre_out.skip(base).len() ==> outputs@.skip(base)[i]
                        == pre_out.skip(base)[i]);
                }
            }
        }
        proof {
            let f = |e: PendingEntry| command::spec_req_id(e.request);
            assert(self.cmd_pending@.map_values(f) =~= Seq::<u64>::empty());
            assert(self.cmd_retry@.map_values(f) =~= Seq::<u64>::empty());
            assert(self.owned_ids() =~= Multiset::<u64>::empty());
            assert(outputs@.subrange(0, base) =~= old(outputs)@);
        }
    }
}


/// The authenticator identity is unchanged: same variant, same Basic
/// answer or same Digest credentials; only a Digest nonce count may move.
pub open spec fn same_auth_identity(a: Option<Authorizer>, b: Option<Authorizer>) -> bool {
    match (a, b) {
        (Option::None, Option::None) => true,
        (Option::Some(Authorizer::Basic(x)), Option::Some(Authorizer::Basic(y))) => x.spec_auth()
            == y.spec_auth(),
        (Option::Some(Authorizer::Digest(x)), Option::Some(Authorizer::Digest(y))) => x.spec_username()
            == y.spec_username() && x.spec_password() == y.spec_password(),
        _ => false,
    }
}

impl Channel {
    /// Serialises one command into the transmit buffer under the given
    /// sequence number, asking the authenticator for its header value.
    /// On success the buffer gains exactly the request bytes; a refused
    /// authenticator or a full buffer changes nothing.
    fn serialise_request(&mut self, req: &Request, cseq: u32) -> (r: Result<(), ChannelError>)
        requires
            old(self).buffer_tx.wf(),
        ensures
            final(self).buffer_tx.wf(),
            final(self).cmd_pending == old(self).cmd_pending,
            final(self).cmd_retry == old(self).cmd_retry,
            final(self).cseq == old(self).cseq,
            final(self).buffer_rx == old(self).buffer_rx,
            final(self).shutdown == old(self).shutdown,
            final(self).user == old(self).user,
            final(self).pass == old(self).pass,
            final(self).reorder == old(self).reorder,
            same_auth_identity(old(self).spec_authorizer(), final(self).spec_authorizer()),
            r is Ok ==> (exists|v: Option<Seq<u8>>|
                auth_value_shape(old(self).spec_authorizer(), v) && final(self).spec_tx() == old(
                    self,
                ).spec_tx() + spec_request_bytes(
                    command::spec_req_method(*req),
                    command::spec_req_url(*req).spec_full(),
                    cseq,
                    v,
                )),
            old(self).spec_authorizer() is None && r is Ok ==> final(self).spec_tx() == old(
                self,
            ).spec_tx() + spec_request_bytes(
                command::spec_req_method(*req),
                command::spec_req_url(*req).spec_full(),
                cseq,
                None,
            ),
            old(self).spec_authorizer() is None ==> (r is Err <==> Channel::buffer_refuses(
                old(self).spec_tx_buf(),
                spec_request_bytes(
                    command::spec_req_method(*req),
                    command::spec_req_url(*req).spec_full(),
                    cseq,
                    None,
                ).len() as int,
            )),
            old(self).spec_authorizer() matches Some(a) ==> a matches Authorizer::Basic(b) ==> (
            r is Err <==> Channel::buffer_refuses(
                old(self).spec_tx_buf(),
                spec_request_bytes(
                    command::spec_req_method(*req),
                    command::spec_req_url(*req).spec_full(),
                    cseq,
                    Some(b.spec_auth()),
                ).len() as int,
            )) && (r is Ok ==> final(self).spec_tx() == old(self).spec_tx() + spec_request_bytes(
                command::spec_req_method(*req),
                command::spec_req_url(*req).spec_full(),
                cseq,
                Some(b.spec_auth()),
            )),
            !(old(self).spec_authorizer() matches Some(a) && a is Digest) ==> (r matches Err(e)
                ==> e is BufferError),
            r is Err ==> final(self).spec_tx() == old(self).spec_tx(),
            r matches Err(e) ==> (e is InvalidAuthorization || e is BufferError),
    {
        let method = req.method();
        let url = req.url();
        let cseq_name: Vec<u8> = vec![0x43u8, 0x53, 0x65, 0x71];
        let ua_name: Vec<u8> = vec![0x55u8, 0x73, 0x65, 0x72, 0x2d, 0x41, 0x67, 0x65, 0x6e, 0x74];
        let ua_value: Vec<u8> = vec![
            0x72u8, 0x73, 0x2d, 0x73, 0x74, 0x72, 0x65, 0x61, 0x6d, 0x65, 0x72,
        ];
        let auth_name: Vec<u8> = vec![
            0x41u8, 0x75, 0x74, 0x68, 0x6f, 0x72, 0x69, 0x7a, 0x61, 0x74, 0x69, 0x6f, 0x6e,
        ];
        proof {
            assert(cseq_name@ =~= cseq_header());
            assert(ua_name@ =~= user_agent_header());
            assert(ua_value@ =~= user_agent());
            assert(auth_name@ =~= authorization_header());
        }
        let cseq_value = bytes::u32_to_dec(cseq);
        let hb = RequestBuilder::new(url.duplicate(), method).header(
            cseq_name.as_slice(),
            cseq_value.as_slice(),
        ).header(ua_name.as_slice(), ua_value.as_slice());
        let ghost auth0 = self.spec_authorizer();
        let mut auth_value: Option<Vec<u8>> = None;
        match &mut self.authorizer {
            Option::None => {},
            Option::Some(a) => {
                match a.answer(method, url) {
                    Result::Ok(v) => {
                        auth_value = Some(v);
                    },
                    Result::Err(e) => {
                        return Err(ChannelError::InvalidAuthorization(e));
                    },
                }
            },
        }
        let ghost av: Option<Seq<u8>> = match &auth_value {
            Option::None => None,
            Option::Some(v) => Some(v@),
        };
        let request_bytes: Vec<u8> = match auth_value {
            Option::None => hb.finish(),
            Option::Some(v) => hb.header(auth_name.as_slice(), v.as_slice()).finish(),
        };
        proof {
            let m = command::spec_req_method(*req);
            let u = command::spec_req_url(*req).spec_full();
            match av {
                Option::None => {
                    assert(request_bytes@ =~= spec_request_bytes(m, u, cseq, None));
                },
                Option::Some(v) => {
                    assert(request_bytes@ =~= spec_request_bytes(m, u, cseq, Some(v)));
                },
            }
        }
        proof {
            assert(auth_value_shape(auth0, av));
        }
        match self.buffer_tx.write_bytes(request_bytes.as_slice()) {
            Result::Ok(u) => {
                proof {
                    assert(auth_value_shape(old(self).spec_authorizer(), av) && self.spec_tx()
                        == old(self).spec_tx() + spec_request_bytes(
                        command::spec_req_method(*req),
                        command::spec_req_url(*req).spec_full(),
                        cseq,
                        av,
                    ));
                }
                Ok(())
            },
            Result::Err(e) => Err(ChannelError::BufferError(e)),
        }
    }

    /// Takes one intake command. A request is given the next sequence
    /// number, serialised, and made pending; a full transmit buffer shuts
    /// the channel down, cancelling everything; a refused authenticator
    /// fails only this command. The shutdown control command cancels every
    /// owed command.
    pub fn handle_command(&mut self, cmd: Command, outputs: &mut Vec<Output>)
        requires
            old(self).inv(),
            old(self).spec_cseq() < u32::MAX,
        ensures
            final(self).inv(),
            final(self).spec_rx() == old(self).spec_rx(),
            final(outputs)@.len() >= old(outputs)@.len(),
            final(outputs)@.subrange(0, old(outputs)@.len() as int) == old(outputs)@,
            (cmd matches Command::Ctrl(c) ==> final(self).spec_cseq() == old(self).spec_cseq()
                && final(self).spec_shutdown() && final(self).owned_ids() == Multiset::<u64>::empty()
                && reply_ids(final(outputs)@.skip(old(outputs)@.len() as int)) == old(
                self,
            ).owned_ids() && all_cancelled(final(outputs)@.skip(old(outputs)@.len() as int))),
            (cmd matches Command::Request(req) ==> final(self).spec_cseq() == old(self).spec_cseq()
                + 1 && final(self).owned_ids().add(
                reply_ids(final(outputs)@.skip(old(outputs)@.len() as int)),
            ) =~= old(self).owned_ids().insert(command::spec_req_id(req))),
            (cmd matches Command::Request(req) ==> ((final(outputs)@.len() == old(outputs)@.len()
                && final(self).pending_keys() == old(self).pending_keys().push(old(self).spec_cseq())
                && final(self).spec_shutdown() == old(self).spec_shutdown() && (exists|
                v: Option<Seq<u8>>,
            |
                auth_value_shape(old(self).spec_authorizer(), v) && final(self).spec_tx() == old(
                    self,
                ).spec_tx() + spec_request_bytes(
                    command::spec_req_method(req),
                    command::spec_req_url(req).spec_full(),
                    old(self).spec_cseq(),
                    v,
                ))) || (final(self).spec_shutdown() && all_cancelled(
                final(outputs)@.skip(old(outputs)@.len() as int),
            )) || ((old(self).spec_authorizer() matches Some(a) && a is Digest)
                && final(self).spec_tx() == old(self).spec_tx()
                && final(self).pending_keys() == old(self).pending_keys() && one_reply(
                final(outputs)@.skip(old(outputs)@.len() as int),
                command::spec_req_id(req),
                Err(CommandError::Unknown),
            )))),
            (cmd matches Command::Request(req) ==> ({
                let sent = spec_request_bytes(
                    command::spec_req_method(req),
                    command::spec_req_url(req).spec_full(),
                    old(self).spec_cseq(),
                    spec_fixed_auth_value(old(self).spec_authorizer()),
                );
                !(old(self).spec_authorizer() matches Some(a) && a is Digest) ==> (
                if !Channel::buffer_refuses(old(self).spec_tx_buf(), sent.len() as int) {
                    &&& final(outputs)@ == old(outputs)@
                    &&& final(self).pending_keys() == old(self).pending_keys().push(
                        old(self).spec_cseq(),
                    )
                    &&& final(self).spec_shutdown() == old(self).spec_shutdown()
                    &&& final(self).spec_tx() == old(self).spec_tx() + sent
                } else {
                    &&& final(self).spec_shutdown()
                    &&& final(self).owned_ids() == Multiset::<u64>::empty()
                    &&& all_cancelled(final(outputs)@.skip(old(outputs)@.len() as int))
                })
            })),
    {
        proof {
            broadcast use group_to_multiset_ensures;
        }
        let ghost base = outputs@.len() as int;
        match cmd {
            Command::Ctrl(c) => {
                self.shutdown(outputs);
            },
            Command::Request(req) => {
                let ghost req_id = command::spec_req_id(req);
                let k = self.next_cseq();
                proof {
                    assert(self.pending_keys() =~= old(self).pending_keys());
                    assert(self.owned_ids() =~= old(self).owned_ids());
                }
                match self.serialise_request(&req, k) {
                    Result::Ok(u) => {
                        let ghost pre = *self;
                        self.cmd_pending.push(PendingEntry { cseq: k, request: req, retry_count: 0 });
                        proof {
                            let f = |e: PendingEntry| command::spec_req_id(e.request);
                            assert(self.cmd_pending@.map_values(f) =~= pre.cmd_pending@.map_values(
                                f,
                            ).push(req_id));
                            assert(self.pending_keys() =~= pre.pending_keys().push(k));
                            assert(self.owned_ids() =~= pre.owned_ids().insert(req_id));
                            assert(outputs@.skip(base) =~= Seq::<Output>::empty());
                            assert(forall|i: int| 0 <= i < pre.pending_keys().len()
                                ==> self.pending_keys()[i] == pre.pending_keys()[i]);
                            assert(outputs@.subrange(0, base) =~= outputs@);
                        }
                    },
                    Result::Err(e) => {
                        let is_buffer = match &e {
                            ChannelError::BufferError(be) => true,
                            _ => false,
                        };
                        if is_buffer {
                            let ghost pre_out = outputs@;
                            let (id, result) = req.cancel(CommandError::Cancelled);
                            outputs.push(Output::Reply { id, result });
                            proof {
                                assert(outputs@.skip(base) =~= Seq::<Output>::empty().push(
                                    Output::Reply { id, result },
                                ));
                                lemma_reply_ids_push(Seq::<Output>::empty(), Output::Reply { id, result });
                                assert(outputs@.subrange(0, base) =~= pre_out.subrange(0, base));
                            }
                            let ghost mid_out = outputs@;
                            self.shutdown(outputs);
                            proof {
                                assert(outputs@.skip(base) =~= mid_out.skip(base) + outputs@.skip(
                                    mid_out.len() as int,
                                ));
                                lemma_reply_ids_concat(
                                    mid_out.skip(base),
                                    outputs@.skip(mid_out.len() as int),
                                );
                                assert(outputs@.subrange(0, base) =~= old(outputs)@);
                            }
                        } else {
                            let ghost pre_out = outputs@;
                            let ce = e.to_command_error();
                            let (id, result) = req.cancel(ce);
                            outputs.push(Output::Reply { id, result });
                            proof {
                                assert(outputs@.skip(base) =~= Seq::<Output>::empty().push(
                                    Output::Reply { id, result },
                                ));
                                lemma_reply_ids_push(Seq::<Output>::empty(), Output::Reply { id, result });
                                assert(outputs@.subrange(0, base) =~= pre_out.subrange(0, base));
                                assert(self.pending_keys() =~= old(self).pending_keys());
                                assert(self.owned_ids() =~= old(self).owned_ids());
                            }
                        }
                    },
                }
            },
        }
    }

    /// Drains the retry queue, re-serialising each command with the newly
    /// installed authenticator; each re-entry takes a fresh sequence number.
    pub fn handle_retry_cmds(&mut self, outputs: &mut Vec<Output>)
        requires
            old(self).inv(),
            old(self).spec_cseq() + old(self).retry_len() <= u32::MAX,
        ensures
            final(self).inv(),
            final(self).spec_rx() == old(self).spec_rx(),
            final(outputs)@.len() >= old(outputs)@.len(),
            final(outputs)@.subrange(0, old(outputs)@.len() as int) == old(outputs)@,
            final(self).owned_ids().add(
                reply_ids(final(outputs)@.skip(old(outputs)@.len() as int)),
            ) =~= old(self).owned_ids(),
            final(self).spec_cseq() <= old(self).spec_cseq() + old(self).retry_len(),
            old(self).retry_len() == 0 ==> *final(self) == *old(self) && final(outputs)@ == old(
                outputs,
            )@,
            final(self).retry_len() == 0,
            final(self).spec_tx().len() >= old(self).spec_tx().len(),
            final(self).spec_tx().subrange(0, old(self).spec_tx().len() as int) == old(
                self,
            ).spec_tx(),
            old(self).retry_len() == 1 ==> single_retry_post(
                *old(self),
                *final(self),
                old(outputs)@,
                final(outputs)@,
            ),
    {
        proof {
            broadcast use group_to_multiset_ensures;
        }
        let ghost base = outputs@.len() as int;
        proof {
            assert(outputs@.skip(base) =~= Seq::<Output>::empty());
            assert(outputs@.subrange(0, base) =~= outputs@);
            assert(self.spec_tx().subrange(0, self.spec_tx().len() as int) =~= self.spec_tx());
        }
        loop
            invariant
                self.inv(),
                self.buffer_rx == old(self).buffer_rx,
                old(self).spec_cseq() + old(self).retry_len() <= u32::MAX,
                self.cseq + self.cmd_retry@.len() <= old(self).spec_cseq() + old(self).retry_len(),
                0 <= base <= outputs@.len(),
                outputs@.subrange(0, base) == old(outputs)@,
                base == old(outputs)@.len(),
                self.owned_ids().add(reply_ids(outputs@.skip(base))) =~= old(self).owned_ids(),
                self.spec_tx().len() >= old(self).spec_tx().len(),
                self.spec_tx().subrange(0, old(self).spec_tx().len() as int) == old(self).spec_tx(),
                old(self).retry_len() == 0 ==> *self == *old(self) && outputs@ == old(outputs)@,
                old(self).retry_len() == 1 ==> ((self.cmd_retry@.len() == 1 && *self == *old(self)
                    && outputs@ == old(outputs)@) || single_retry_post(
                    *old(self),
                    *self,
                    old(outputs)@,
                    outputs@,
                )),
            ensures
                self.cmd_retry@.len() == 0 || self.shutdown,
                self.cmd_retry@.len() == 0,
            decreases self.cmd_retry@.len(),
        {
            proof {
                broadcast use group_to_multiset_ensures;
            }
            if self.cmd_retry.len() == 0 {
                break;
            }
            let ghost pre = *self;
            let entry = self.cmd_retry.remove(0);
            proof {
                let f = |e: PendingEntry| command::spec_req_id(e.request);
                let g = |e: PendingEntry| (
                    command::spec_req_id(e.request),
                    command::spec_req_method(e.request),
                    command::spec_req_url(e.request).spec_full(),
                    e.retry_count,
                );
                assert(self.cmd_retry@ =~= pre.cmd_retry@.remove(0));
                assert(self.cmd_retry@.map_values(f) =~= pre.cmd_retry@.map_values(f).remove(0));
                assert(pre.cmd_retry@.map_values(f)[0] == command::spec_req_id(entry.request));
                assert(pre.cmd_retry@.map_values(g)[0] == (
                    command::spec_req_id(entry.request),
                    command::spec_req_method(entry.request),
                    command::spec_req_url(entry.request).spec_full(),
                    entry.retry_count,
                ));
                assert(self.pending_keys() =~= pre.pending_keys());
                assert(pre.owned_ids() =~= self.owned_ids().insert(command::spec_req_id(entry.request)));
            }
            let k = self.next_cseq();
            let ghost req_id = command::spec_req_id(entry.request);
            let PendingEntry { cseq: old_k, request, retry_count } = entry;
            match self.serialise_request(&request, k) {
                Result::Ok(u) => {
                    let ghost pre2 = *self;
                    self.cmd_pending.push(
                        PendingEntry { cseq: k, request, retry_count },
                    );
                    proof {
                        let f = |e: PendingEntry| command::spec_req_id(e.request);
                        assert(self.cmd_pending@.map_values(f) =~= pre2.cmd_pending@.map_values(
                            f,
                        ).push(req_id));
                        assert(self.pending_keys() =~= pre2.pending_keys().push(k));
                        assert(self.owned_ids() =~= pre2.owned_ids().insert(req_id));
                        assert(forall|i: int| 0 <= i < pre2.pending_keys().len()
                            ==> self.pending_keys()[i] == pre2.pending_keys()[i]);
                        assert(self.spec_tx().subrange(
                            0,
                            old(self).spec_tx().len() as int,
                        ) =~= old(self).spec_tx());
                        if old(self).retry_len() == 1 {
                            assert(single_retry_post(*old(self), *self, old(outputs)@, outputs@));
                        }
                    }
                },
                Result::Err(e) => {
                    let is_buffer = match &e {
                        ChannelError::BufferError(be) => true,
                        _ => false,
                    };
                    if is_buffer {
                        let ghost pre_out = outputs@;
                        let (id, result) = request.cancel(CommandError::Cancelled);
                        outputs.push(Output::Reply { id, result });
                        proof {
                            assert(outputs@.skip(base) =~= pre_out.skip(base).push(
                                Output::Reply { id, result },
                            ));
                            lemma_reply_ids_push(pre_out.skip(base), Output::Reply { id, result });
                            assert(outputs@.subrange(0, base) =~= pre_out.subrange(0, base));
                        }
                        let ghost mid_out = outputs@;
                        self.shutdown(outputs);
                        proof {
                            assert(outputs@.skip(base) =~= mid_out.skip(base) + outputs@.skip(
                                mid_out.len() as int,
                            ));
                            lemma_reply_ids_concat(
                                mid_out.skip(base),
                                outputs@.skip(mid_out.len() as int),
                            );
                            assert(outputs@.subrange(0, base) =~= old(outputs)@);
                            if old(self).retry_len() == 1 {
                                assert(outputs@.subrange(0, old(outputs)@.len() as int) =~= old(
                                    outputs,
                                )@);
                                assert(all_cancelled(outputs@.skip(old(outputs)@.len() as int)));
                                assert(single_retry_post(*old(self), *self, old(outputs)@, outputs@));
                            }
                        }
                    } else {
                        let ghost pre_out = outputs@;
                        let ce = e.to_command_error();
                        let (id, result) = request.cancel(ce);
                        outputs.push(Output::Reply { id, result });
                        proof {
                            assert(outputs@.skip(base) =~= pre_out.skip(base).push(
                                Output::Reply { id, result },
                            ));
                            lemma_reply_ids_push(pre_out.skip(base), Output::Reply { id, result });
                            assert(outputs@.subrange(0, base) =~= pre_out.subrange(0, base));
                            if old(self).retry_len() == 1 {
                                assert(outputs@.skip(old(outputs)@.len() as int) =~= Seq::<
                                    Output,
                                >::empty().push(Output::Reply { id, result }));
                                assert(single_retry_post(*old(self), *self, old(outputs)@, outputs@));
                            }
                        }
                    }
                },
            }
        }
    }
}

/// Owed replies add up over concatenated output runs.
proof fn lemma_reply_ids_concat(a: Seq<Output>, b: Seq<Output>)
    ensures
        reply_ids(a + b) == reply_ids(a).add(reply_ids(b)),
    decreases b.len(),
{
    if b.len() == 0 {
        assert(a + b =~= a);
        assert(reply_ids(a + b) =~= reply_ids(a).add(Multiset::empty()));
    } else {
        lemma_reply_ids_concat(a, b.drop_last());
        assert((a + b).drop_last() =~= a + b.drop_last());
        assert((a + b).last() == b.last());
        match b.last() {
            Output::Reply { id, result } => {
                assert(reply_ids(a + b) =~= reply_ids(a).add(reply_ids(b)));
            },
            Output::Media(p) => {
                assert(reply_ids(a + b) =~= reply_ids(a).add(reply_ids(b)));
            },
        }
    }
}


/// `added` is exactly one reply to `id` with the given result.
pub open spec fn one_reply(added: Seq<Output>, id: u64, result: Result<Sdp, CommandError>) -> bool {
    added.len() == 1 && added[0] == (Output::Reply { id, result })
}

/// What response dispatch does for the matched command, by status:
/// a missing status is a bad response; 200 hands the body over (a missing
/// body is a bad response); a first 401 with a usable challenge moves the
/// command to the retry queue and installs the authenticator, an unusable
/// one fails the command alone, and a 401 on a retried command is a
/// refusal; any other status is unexpected.
pub open spec fn spec_dispatch_outcome(
    st: Option<Status>,
    www: Option<Seq<u8>>,
    body: Option<Seq<u8>>,
    rc: u32,
    id: u64,
    user: Option<Seq<u8>>,
    pass: Seq<u8>,
    old_retry_len: int,
    new_retry_len: int,
    added: Seq<Output>,
    new_auth: Option<Authorizer>,
) -> bool {
    match st {
        Option::None => one_reply(added, id, Err(CommandError::BadResponse)) && new_retry_len
            == old_retry_len,
        Option::Some(code) => {
            if code == Status::Unauthorized {
                if rc >= 1 {
                    one_reply(added, id, Err(CommandError::Unauthorized)) && new_retry_len
                        == old_retry_len
                } else {
                    &&& (www is None ==> one_reply(added, id, Err(CommandError::BadResponse))
                        && new_retry_len == old_retry_len)
                    &&& (www is Some && user is None ==> one_reply(
                        added,
                        id,
                        Err(CommandError::Unauthorized),
                    ) && new_retry_len == old_retry_len)
                    &&& (www is Some && user is Some ==> ((added.len() == 0 && new_retry_len
                        == old_retry_len + 1 && new_auth is Some) || (one_reply(
                        added,
                        id,
                        Err(CommandError::Unknown),
                    ) && new_retry_len == old_retry_len)))
                    &&& (www matches Some(w) ==> user matches Some(u)
                        ==> crate::bytes::all_ascii(w) ==> (match find_index(w, 0x20, 0) {
                        Option::None => true,
                        Option::Some(sp) => w.subrange(0, sp)
                            == crate::rtsp::auth::basic_token() ==> (added.len() == 0
                            && new_retry_len == old_retry_len + 1 && (new_auth matches Some(
                            a,
                        ) && a matches Authorizer::Basic(b) && b.spec_auth()
                            == crate::rtsp::auth::spec_basic_answer(u, pass))),
                    }))
                }
            } else if code == Status::OK {
                match body {
                    Option::Some(b) => added.len() == 1 && new_retry_len == old_retry_len && (match added[0] {
                        Output::Reply { id: id2, result } => id2 == id && (result matches Ok(s)
                            && s.spec_description() == b),
                        Output::Media(_) => false,
                    }),
                    Option::None => one_reply(added, id, Err(CommandError::BadResponse))
                        && new_retry_len == old_retry_len,
                }
            } else {
                one_reply(added, id, Err(CommandError::UnexpectedStatus(code))) && new_retry_len
                    == old_retry_len
            }
        },
    }
}

impl Channel {
    /// The pending commands as (sequence number, sink id, retry count).
    pub closed spec fn spec_pending(&self) -> Seq<(u32, u64, u32)> {
        self.cmd_pending@.map_values(
            |e: PendingEntry| (e.cseq, command::spec_req_id(e.request), e.retry_count),
        )
    }

    /// Removes and returns the pending command with the given sequence
    /// number, if one is pending.
    fn take_pending(&mut self, k: u32) -> (r: Option<PendingEntry>)
        requires
            old(self).inv(),
        ensures
            final(self).inv(),
            final(self).cseq == old(self).cseq,
            final(self).buffer_rx == old(self).buffer_rx,
            final(self).buffer_tx == old(self).buffer_tx,
            final(self).cmd_retry == old(self).cmd_retry,
            final(self).authorizer == old(self).authorizer,
            final(self).user == old(self).user,
            final(self).pass == old(self).pass,
            final(self).reorder == old(self).reorder,
            final(self).shutdown == old(self).shutdown,
            r is Some <==> old(self).pending_keys().contains(k),
            r is None ==> *final(self) == *old(self),
            r matches Some(e) ==> (exists|i: int|
                0 <= i < old(self).spec_pending().len() && #[trigger] old(self).spec_pending()[i].0
                    == k && old(self).spec_pending()[i].1 == command::spec_req_id(e.request) && old(
                    self,
                ).spec_pending()[i].2 == e.retry_count && final(self).spec_pending() == old(
                    self,
                ).spec_pending().remove(i) && final(self).owned_ids() == old(self).owned_ids().remove(
                    command::spec_req_id(e.request),
                )),
    {
        proof {
            broadcast use group_to_multiset_ensures;
        }
        let mut i: usize = 0;
        loop
            invariant
                self == old(self),
                old(self).inv(),
                0 <= i <= self.cmd_pending@.len(),
                forall|j: int| 0 <= j < i ==> #[trigger] self.pending_keys()[j] != k,
            ensures
                self == old(self),
                i <= self.cmd_pending@.len(),
                forall|j: int| 0 <= j < i ==> #[trigger] self.pending_keys()[j] != k,
                i < self.cmd_pending@.len() ==> self.pending_keys()[i as int] == k,
                i == self.cmd_pending@.len() ==> !self.pending_keys().contains(k),
            decreases self.cmd_pending@.len() - i,
        {
            if i >= self.cmd_pending.len() {
                proof {
                    if self.pending_keys().contains(k) {
                        let j = choose|j: int|
                            0 <= j < self.pending_keys().len() && self.pending_keys()[j] == k;
                        assert(self.pending_keys()[j] != k);
                    }
                }
                break;
            }
            if self.cmd_pending[i].cseq == k {
                break;
            }
            i = i + 1;
        }
        if i >= self.cmd_pending.len() {
            return None;
        }
        let ghost pre = *self;
        let entry = self.cmd_pending.remove(i);
        proof {
            let f = |e: PendingEntry| command::spec_req_id(e.request);
            let g = |e: PendingEntry| (e.cseq, command::spec_req_id(e.request), e.retry_count);
            assert(self.cmd_pending@ =~= pre.cmd_pending@.remove(i as int));
            assert(self.cmd_pending@.map_values(f) =~= pre.cmd_pending@.map_values(f).remove(i as int));
            assert(self.cmd_pending@.map_values(g) =~= pre.cmd_pending@.map_values(g).remove(i as int));
            assert(self.pending_keys() =~= pre.pending_keys().remove(i as int));
            assert(pre.cmd_pending@.map_values(f)[i as int] == command::spec_req_id(entry.request));
            assert(self.owned_ids() =~= pre.owned_ids().remove(command::spec_req_id(entry.request)));
            assert(pre.pending_keys().contains(k));
            assert forall|a: int, b: int| 0 <= a < b < self.pending_keys().len() implies #[trigger] self.pending_keys()[a]
                != #[trigger] self.pending_keys()[b] by {
                if b < i {
                    assert(pre.pending_keys()[a] != pre.pending_keys()[b]);
                } else if a < i {
                    assert(pre.pending_keys()[a] != pre.pending_keys()[b + 1]);
                } else {
                    assert(pre.pending_keys()[a + 1] != pre.pending_keys()[b + 1]);
                }
            }
            assert forall|a: int| 0 <= a < self.pending_keys().len() implies #[trigger] self.pending_keys()[a]
                < self.cseq by {
                if a < i {
                    assert(pre.pending_keys()[a] < pre.cseq);
                } else {
                    assert(pre.pending_keys()[a + 1] < pre.cseq);
                }
            }
            assert(pre.spec_pending()[i as int].0 == k);
            assert(pre.spec_pending()[i as int].1 == command::spec_req_id(entry.request));
            assert(pre.spec_pending()[i as int].2 == entry.retry_count);
            assert(0 <= i < old(self).spec_pending().len() && old(self).spec_pending()[i as int].0
                == k && old(self).spec_pending()[i as int].1 == command::spec_req_id(entry.request)
                && old(self).spec_pending()[i as int].2 == entry.retry_count && self.spec_pending()
                == old(self).spec_pending().remove(i as int) && self.owned_ids() == old(
                self,
            ).owned_ids().remove(command::spec_req_id(entry.request)));
        }
        Some(entry)
    }

    /// Dispatches one completed response: the `CSeq` value names the
    /// pending command (a missing or unknown one is fatal), and the status
    /// decides what its sink receives, as `spec_dispatch_outcome` states.
    pub fn dispatch_response(
        &mut self,
        cseq_val: Option<u32>,
        status: Option<Status>,
        www: Option<Vec<u8>>,
        body: Option<Vec<u8>>,
        outputs: &mut Vec<Output>,
    ) -> (r: Result<(), ChannelError>)
        requires
            old(self).inv(),
        ensures
            final(self).inv(),
            final(self).spec_cseq() == old(self).spec_cseq(),
            final(self).spec_tx() == old(self).spec_tx(),
            final(self).spec_rx() == old(self).spec_rx(),
            final(self).spec_shutdown() == old(self).spec_shutdown(),
            final(outputs)@.len() >= old(outputs)@.len(),
            final(outputs)@.subrange(0, old(outputs)@.len() as int) == old(outputs)@,
            final(self).owned_ids().add(
                reply_ids(final(outputs)@.skip(old(outputs)@.len() as int)),
            ) =~= old(self).owned_ids(),
            r is Err ==> (r matches Err(e) && e is InvalidCSeq),
            spec_dispatch_post(
                *old(self),
                *final(self),
                old(outputs)@,
                final(outputs)@,
                cseq_val,
                status,
                (match www {
                    Option::None => None,
                    Option::Some(w) => Some(w@),
                }),
                (match body {
                    Option::None => None,
                    Option::Some(b) => Some(b@),
                }),
                r is Ok,
            ),
    {
        proof {
            broadcast use group_to_multiset_ensures;
        }
        let ghost base = outputs@.len() as int;
        let k = match cseq_val {
            Option::Some(k) => k,
            Option::None => {
                proof {
                    assert(outputs@.subrange(0, outputs@.len() as int) =~= outputs@);
                }
                return Err(ChannelError::InvalidCSeq);
            },
        };
        let entry = match self.take_pending(k) {
            Option::Some(e) => e,
            Option::None => {
                proof {
                    assert(outputs@.subrange(0, outputs@.len() as int) =~= outputs@);
                }
                return Err(ChannelError::InvalidCSeq);
            },
        };
        let ghost mid = *self;
        let ghost id_g = command::spec_req_id(entry.request);
        let ghost wi: int = choose|i: int|
            0 <= i < old(self).spec_pending().len() && #[trigger] old(self).spec_pending()[i].0 == k
                && old(self).spec_pending()[i].1 == id_g && old(self).spec_pending()[i].2
                == entry.retry_count && mid.spec_pending() == old(self).spec_pending().remove(i)
                && mid.owned_ids() == old(self).owned_ids().remove(id_g);
        proof {
            broadcast use vstd::multiset::group_multiset_axioms;

            let i = choose|i: int|
                0 <= i < old(self).spec_pending().len() && #[trigger] old(self).spec_pending()[i].0
                    == k && old(self).spec_pending()[i].1 == id_g && old(self).spec_pending()[i].2
                    == entry.retry_count && mid.spec_pending() == old(self).spec_pending().remove(i)
                    && mid.owned_ids() == old(self).owned_ids().remove(id_g);
            let f = |e: PendingEntry| command::spec_req_id(e.request);
            assert(old(self).cmd_pending@.map_values(f)[i] == id_g);
            assert(old(self).cmd_pending@.map_values(f).contains(id_g));
            assert(old(self).cmd_pending@.map_values(f).to_multiset().count(id_g) > 0);
            assert(old(self).owned_ids().count(id_g) > 0);
        }
        let ghost www_v: Option<Seq<u8>> = match &www {
            Option::None => None,
            Option::Some(w) => Some(w@),
        };
        let ghost body_v: Option<Seq<u8>> = match &body {
            Option::None => None,
            Option::Some(b) => Some(b@),
        };
        let PendingEntry { cseq: taken_k, request, retry_count } = entry;
        proof {
            assert(mid.retry_len() == old(self).retry_len());
            assert(mid.spec_authorizer() == old(self).spec_authorizer());
        }
        match status {
            Option::None => {
                let (id, result) = request.cancel(CommandError::BadResponse);
                outputs.push(Output::Reply { id, result });
                proof {
                    assert(outputs@.skip(base) =~= Seq::<Output>::empty().push(
                        Output::Reply { id, result },
                    ));
                    lemma_reply_ids_push(Seq::<Output>::empty(), Output::Reply { id, result });
                    assert(outputs@.subrange(0, base) =~= old(outputs)@);
                }
                Ok(())
            },
            Option::Some(st) => {
                let is_unauthorized = match st {
                    Status::Unauthorized => true,
                    _ => false,
                };
                let is_ok = match st {
                    Status::OK => true,
                    _ => false,
                };
                if is_unauthorized {
                    if retry_count >= 1 {
                        let (id, result) = request.cancel(CommandError::Unauthorized);
                        outputs.push(Output::Reply { id, result });
                        proof {
                            assert(outputs@.skip(base) =~= Seq::<Output>::empty().push(
                                Output::Reply { id, result },
                            ));
                            lemma_reply_ids_push(
                                Seq::<Output>::empty(),
                                Output::Reply { id, result },
                            );
                            assert(outputs@.subrange(0, base) =~= old(outputs)@);
                        }
                        Ok(())
                    } else {
                        let www_ref: Option<&[u8]> = match &www {
                            Option::Some(w) => Some(w.as_slice()),
                            Option::None => None,
                        };
                        match Self::create_authorizer(&self.user, self.pass.as_slice(), www_ref) {
                            Result::Ok(a) => {
                                let ghost pre2 = *self;
                                self.authorizer = Some(a);
                                self.cmd_retry.push(
                                    PendingEntry {
                                        cseq: taken_k,
                                        request,
                                        retry_count: retry_count + 1,
                                    },
                                );
                                proof {
                                    let f = |e: PendingEntry| command::spec_req_id(e.request);
                                    assert(self.cmd_retry@.map_values(f) =~= pre2.cmd_retry@.map_values(
                                        f,
                                    ).push(id_g));
                                    assert(self.pending_keys() =~= pre2.pending_keys());
                                    assert(self.spec_pending() =~= pre2.spec_pending());
                                    assert(self.owned_ids() =~= pre2.owned_ids().insert(id_g));
                                    assert(outputs@.skip(base) =~= Seq::<Output>::empty());
                                    assert(outputs@.subrange(0, base) =~= old(outputs)@);
                                }
                                Ok(())
                            },
                            Result::Err(e) => {
                                let ce = e.to_command_error();
                                let (id, result) = request.cancel(ce);
                                outputs.push(Output::Reply { id, result });
                                proof {
                                    assert(outputs@.skip(base) =~= Seq::<Output>::empty().push(
                                        Output::Reply { id, result },
                                    ));
                                    lemma_reply_ids_push(
                                        Seq::<Output>::empty(),
                                        Output::Reply { id, result },
                                    );
                                    assert(outputs@.subrange(0, base) =~= old(outputs)@);
                                }
                                Ok(())
                            },
                        }
                    }
                } else if is_ok {
                    match body {
                        Option::Some(b) => {
                            let (id, result) = request.handle_response(st, b.as_slice());
                            outputs.push(Output::Reply { id, result });
                            proof {
                                assert(outputs@.skip(base) =~= Seq::<Output>::empty().push(
                                    Output::Reply { id, result },
                                ));
                                lemma_reply_ids_push(
                                    Seq::<Output>::empty(),
                                    Output::Reply { id, result },
                                );
                                assert(outputs@.subrange(0, base) =~= old(outputs)@);
                            }
                            Ok(())
                        },
                        Option::None => {
                            let (id, result) = request.cancel(CommandError::BadResponse);
                            outputs.push(Output::Reply { id, result });
                            proof {
                                assert(outputs@.skip(base) =~= Seq::<Output>::empty().push(
                                    Output::Reply { id, result },
                                ));
                                lemma_reply_ids_push(
                                    Seq::<Output>::empty(),
                                    Output::Reply { id, result },
                                );
                                assert(outputs@.subrange(0, base) =~= old(outputs)@);
                            }
                            Ok(())
                        },
                    }
                } else {
                    let (id, result) = request.cancel(CommandError::UnexpectedStatus(st));
                    outputs.push(Output::Reply { id, result });
                    proof {
                        assert(outputs@.skip(base) =~= Seq::<Output>::empty().push(
                            Output::Reply { id, result },
                        ));
                        lemma_reply_ids_push(Seq::<Output>::empty(), Output::Reply { id, result });
                        assert(outputs@.subrange(0, base) =~= old(outputs)@);
                    }
                    Ok(())
                }
            },
        }
    }
}


impl Channel {
    /// Parses one RTSP response from the front of the receive buffer,
    /// dispatches it, and returns how many bytes it spanned. An incomplete
    /// response asks for more bytes; an over-long header or body is
    /// refused; any fault leaves the channel as it was.
    fn read_rtsp_packet(&mut self, outputs: &mut Vec<Output>) -> (r: Result<usize, ChannelError>)
        requires
            old(self).inv(),
        ensures
            final(self).inv(),
            final(self).spec_cseq() == old(self).spec_cseq(),
            final(self).spec_tx() == old(self).spec_tx(),
            final(self).spec_rx() == old(self).spec_rx(),
            final(self).spec_shutdown() == old(self).spec_shutdown(),
            final(outputs)@.len() >= old(outputs)@.len(),
            final(outputs)@.subrange(0, old(outputs)@.len() as int) == old(outputs)@,
            final(self).owned_ids().add(
                reply_ids(final(outputs)@.skip(old(outputs)@.len() as int)),
            ) =~= old(self).owned_ids(),
            r matches Ok(n) ==> n <= old(self).spec_rx().len(),
            r matches Ok(n) ==> n >= 2,
            r is Err ==> *final(self) == *old(self) && final(outputs)@ == old(outputs)@,
            ({
                let dv = crate::rtsp::response::spec_drive(
                    crate::rtsp::response::spec_initial_model(),
                    old(self).spec_rx(),
                );
                let c = spec_collect(dv.items);
                &&& (c.bad_cseq ==> (r matches Err(e) && e is InvalidCSeq))
                &&& (!c.bad_cseq ==> (match dv.error {
                    Option::Some(pe) => (
                    if pe is MissingEndOfLine {
                        (r matches Err(e) && (if old(self).spec_rx().len() > 1024 {
                            e is HeaderTooLong
                        } else {
                            e is IncompleteResponse
                        }))
                    } else {
                        (r matches Err(e) && e matches ChannelError::ParseResponse(pe2) && pe2 == pe)
                    }),
                    Option::None => (
                    if !(dv.model.state is Done) {
                        (r matches Err(e) && (if dv.model.header_length + dv.model.content_length
                            - dv.model.pos > 32768 {
                            e is RequestTooLong
                        } else {
                            e is IncompleteResponse
                        }))
                    } else {
                        &&& (r is Ok <==> (c.cseq matches Some(k) && old(
                            self,
                        ).pending_keys().contains(k)))
                        &&& (r matches Ok(n) ==> n == dv.model.pos)
                        &&& (r matches Err(e2) ==> e2 is InvalidCSeq)
                        &&& spec_dispatch_post(
                            *old(self),
                            *final(self),
                            old(outputs)@,
                            final(outputs)@,
                            c.cseq,
                            c.status,
                            c.www,
                            c.body,
                            r is Ok,
                        )
                    }),
                }))
            }),
    {
        proof {
            broadcast use group_to_multiset_ensures;
        }
        let data = bytes::copy_to_vec(self.buffer_rx.get_read_slice());
        let ghost m0 = crate::rtsp::response::spec_initial_model();
        let ghost dv = crate::rtsp::response::spec_drive(m0, data@);
        let ghost mut done: Seq<crate::rtsp::response::ItemModel> = Seq::empty();
        let mut parser = Parser::new();
        let mut cseq_val: Option<u32> = None;
        let mut www: Option<Vec<u8>> = None;
        let mut status: Option<Status> = None;
        let mut body: Option<Vec<u8>> = None;
        let cseq_lower: Vec<u8> = vec![0x63u8, 0x73, 0x65, 0x71];
        let www_lower: Vec<u8> = vec![
            0x77u8, 0x77, 0x77, 0x2d, 0x61, 0x75, 0x74, 0x68, 0x65, 0x6e, 0x74, 0x69, 0x63, 0x61,
            0x74, 0x65,
        ];
        proof {
            assert(cseq_lower@ =~= cseq_name_lower());
            assert(www_lower@ =~= www_authenticate_name_lower());
            assert(dv.items =~= done + crate::rtsp::response::spec_drive(
                parser.model(),
                data@,
            ).items);
        }
        loop
            invariant_except_break
                old(self).inv(),
                self == old(self),
                parser.model().wf(),
                0 <= parser.model().pos <= data@.len(),
                outputs@ == old(outputs)@,
                data@ == old(self).spec_rx(),
                m0 == crate::rtsp::response::spec_initial_model(),
                dv == crate::rtsp::response::spec_drive(m0, data@),
                cseq_lower@ == cseq_name_lower(),
                www_lower@ == www_authenticate_name_lower(),
                dv.items == done + crate::rtsp::response::spec_drive(parser.model(), data@).items,
                dv.model == crate::rtsp::response::spec_drive(parser.model(), data@).model,
                dv.error == crate::rtsp::response::spec_drive(parser.model(), data@).error,
                !spec_collect(done).bad_cseq,
                cseq_val == spec_collect(done).cseq,
                status == spec_collect(done).status,
                (match www {
                    Option::None => spec_collect(done).www is None,
                    Option::Some(w) => spec_collect(done).www == Some(w@),
                }),
                (match body {
                    Option::None => spec_collect(done).body is None,
                    Option::Some(b) => spec_collect(done).body == Some(b@),
                }),
            ensures
                old(self).inv(),
                self == old(self),
                parser.model().wf(),
                0 <= parser.model().pos <= data@.len(),
                outputs@ == old(outputs)@,
                data@ == old(self).spec_rx(),
                m0 == crate::rtsp::response::spec_initial_model(),
                dv == crate::rtsp::response::spec_drive(m0, data@),
                dv.items == done,
                dv.model == parser.model(),
                dv.error is None,
                parser.model().state is ExpectBody || parser.model().state is Done,
                !spec_collect(done).bad_cseq,
                cseq_val == spec_collect(done).cseq,
                status == spec_collect(done).status,
                (match www {
                    Option::None => spec_collect(done).www is None,
                    Option::Some(w) => spec_collect(done).www == Some(w@),
                }),
                (match body {
                    Option::None => spec_collect(done).body is None,
                    Option::Some(b) => spec_collect(done).body == Some(b@),
                }),
            decreases data@.len() - parser.model().pos, crate::rtsp::response::state_rank(
                parser.model().state,
            ),
        {
            let ghost pre_model = parser.model();
            let step = parser.parse_next(data.as_slice());
            proof {
                crate::rtsp::response::lemma_parse_next_progress(pre_model, data@);
            }
            match step {
                Result::Err(e) => {
                    proof {
                        // the run stops here with this fault and these items
                        assert(crate::rtsp::response::spec_drive(pre_model, data@).items
                            =~= Seq::<crate::rtsp::response::ItemModel>::empty());
                        assert(dv.items =~= done);
                        assert(dv.error == Some(
                            crate::rtsp::response::spec_parse_next(pre_model, data@).1->Err_0,
                        ));
                    }
                    let incomplete = match &e {
                        ParseError::MissingEndOfLine => true,
                        _ => false,
                    };
                    if incomplete {
                        if data.len() > 1024 {
                            return Err(ChannelError::HeaderTooLong);
                        } else {
                            return Err(ChannelError::IncompleteResponse);
                        }
                    } else {
                        return Err(ChannelError::ParseResponse(e));
                    }
                },
                Result::Ok(item_opt) => {
                    let item = match item_opt {
                        Option::Some(it) => it,
                        Option::None => {
                            proof {
                                assert(crate::rtsp::response::spec_drive(pre_model, data@).items
                                    =~= Seq::<crate::rtsp::response::ItemModel>::empty());
                                assert(dv.items =~= done);
                            }
                            break;
                        },
                    };
                    let ghost im = crate::rtsp::response::spec_parse_next(
                        pre_model,
                        data@,
                    ).1->Ok_0->Some_0;
                    let ghost pre_done = done;
                    proof {
                        done = done.push(im);
                        assert(crate::rtsp::response::spec_drive(pre_model, data@).items =~= seq![
                            im,
                        ] + crate::rtsp::response::spec_drive(parser.model(), data@).items);
                        assert(dv.items =~= done + crate::rtsp::response::spec_drive(
                            parser.model(),
                            data@,
                        ).items);
                        assert(spec_collect(done) == spec_collect_step(spec_collect(pre_done), im))
                            by {
                            assert(done.drop_last() =~= pre_done);
                        }
                    }
                    match item {
                        ParseItem::Header(h) => {
                            let is_cseq = match &cseq_val {
                                Option::None => bytes::bytes_eq_ignore_case(
                                    h.name.as_slice(),
                                    cseq_lower.as_slice(),
                                ),
                                Option::Some(v) => false,
                            };
                            if is_cseq {
                                match bytes::parse_u32(h.value.as_slice()) {
                                    Result::Ok(v) => {
                                        cseq_val = Some(v);
                                    },
                                    Result::Err(pe) => {
                                        proof {
                                            assert(spec_collect(done).bad_cseq);
                                            assert(dv.items.subrange(0, done.len() as int)
                                                =~= done);
                                            lemma_collect_bad_persists(dv.items, done.len() as int);
                                        }
                                        return Err(ChannelError::InvalidCSeq);
                                    },
                                }
                            } else {
                                let is_www = match &www {
                                    Option::None => bytes::bytes_eq_ignore_case(
                                        h.name.as_slice(),
                                        www_lower.as_slice(),
                                    ),
                                    Option::Some(v) => false,
                                };
                                if is_www {
                                    www = Some(h.value);
                                }
                            }
                        },
                        ParseItem::Status(st) => {
                            status = Some(st);
                        },
                        ParseItem::Body(b) => {
                            body = Some(b);
                        },
                        ParseItem::Protocol(pr) => {},
                    }
                },
            }
        }
        if !parser.is_done() {
            match parser.missing_bytes() {
                Option::Some(m) => {
                    if m > 32768 {
                        return Err(ChannelError::RequestTooLong);
                    } else {
                        return Err(ChannelError::IncompleteResponse);
                    }
                },
                Option::None => {
                    proof {
                        assert(false);
                    }
                    return Err(ChannelError::IncompleteResponse);
                },
            }
        }
        let n = parser.parsed_bytes();
        match self.dispatch_response(cseq_val, status, www, body, outputs) {
            Result::Ok(u) => Ok(n),
            Result::Err(e) => Err(e),
        }
    }

    /// Takes one interleaved binary frame off the receive buffer: RTCP
    /// frames are dropped, RTP frames go through the reorder queue, and
    /// every packet it releases is emitted in order. Returns the frame's
    /// span, or zero when the frame is still incomplete.
    fn read_interleaved(&mut self, outputs: &mut Vec<Output>) -> (r: Result<usize, ChannelError>)
        requires
            old(self).inv(),
            old(self).spec_rx().len() > 0,
            old(self).spec_rx()[0] == 0x24,
        ensures
            final(self).inv(),
            final(self).spec_cseq() == old(self).spec_cseq(),
            final(self).spec_tx() == old(self).spec_tx(),
            final(self).spec_rx() == old(self).spec_rx(),
            final(self).spec_shutdown() == old(self).spec_shutdown(),
            final(self).owned_ids() == old(self).owned_ids(),
            final(outputs)@.len() >= old(outputs)@.len(),
            final(outputs)@.subrange(0, old(outputs)@.len() as int) == old(outputs)@,
            reply_ids(final(outputs)@.skip(old(outputs)@.len() as int)) == Multiset::<u64>::empty(),
            r matches Ok(n) ==> n <= old(self).spec_rx().len(),
            r is Ok,
            r matches Ok(n) ==> ((n == 0 <==> (old(self).spec_rx().len() < 4 || 4 + spec_be16(
                old(self).spec_rx(),
                2,
            ) > old(self).spec_rx().len())) && (n > 0 ==> n == 4 + spec_be16(
                old(self).spec_rx(),
                2,
            ))),
            r matches Ok(n) ==> n == 0 ==> *final(self) == *old(self) && final(outputs)@ == old(
                outputs,
            )@,
            ({
                let data = old(self).spec_rx();
                (data.len() >= 4 && 4 + spec_be16(data, 2) <= data.len() && spec_be16(data, 2) >= 2
                    && 200 <= data[5] <= 207) ==> *final(self) == *old(self) && final(outputs)@
                    == old(outputs)@
            }),
            ({
                let data = old(self).spec_rx();
                let flen = spec_be16(data, 2) as int;
                (data.len() >= 4 && 4 + flen <= data.len() && !(flen >= 2 && 200 <= data[5] <= 207)
                    && flen >= 12 && flen >= crate::rtp::packet::spec_data_offset(
                    data.subrange(4, 4 + flen),
                )) ==> (final(self).spec_reorder_seqs().len() == 0
                    || (final(self).spec_reorder_last() matches Some(l) && crate::rtp::queue::spec_seq_dist(
                    final(self).spec_reorder_seqs()[0],
                    l,
                ) != 1 && final(self).spec_reorder_seqs().len() < final(self).spec_reorder_max()))
            }),
    {
        let ghost base = outputs@.len() as int;
        proof {
            assert(outputs@.skip(base) =~= Seq::<Output>::empty());
        }
        let header_len: usize = 4;
        let total: usize;
        let payload: Vec<u8>;
        {
            let buf = self.buffer_rx.get_read_slice();
            if buf.len() < 4 {
                proof {
                    assert(outputs@.subrange(0, base) =~= outputs@);
                }
                return Ok(0);
            }
            let frame_len: usize = (buf[2] as usize) * 0x100 + (buf[3] as usize);
            if buf.len() - 4 < frame_len {
                proof {
                    assert(outputs@.subrange(0, base) =~= outputs@);
                }
                return Ok(0);
            }
            total = 4 + frame_len;
            payload = bytes::copy_range(buf, 4, total);
        }
        if payload.len() >= 2 && payload[1] >= 200 && payload[1] <= 207 {
            // an RTCP frame: acknowledged, not interpreted
            proof {
                assert(outputs@.subrange(0, base) =~= outputs@);
            }
            return Ok(total);
        }
        match Packet::new(payload) {
            Result::Err(e) => {
                // not a well-formed RTP packet: drop the frame
                proof {
                    assert(outputs@.subrange(0, base) =~= outputs@);
                }
                Ok(total)
            },
            Result::Ok(p) => {
                proof {
                    assert(self.pending_keys() == old(self).pending_keys());
                }
                match self.reorder.push_or_return(p) {
                    Option::Some(out_p) => {
                        let ghost pre_out = outputs@;
                        outputs.push(Output::Media(out_p));
                        proof {
                            assert(outputs@.skip(base) =~= pre_out.skip(base).push(
                                Output::Media(out_p),
                            ));
                            lemma_reply_ids_push(pre_out.skip(base), Output::Media(out_p));
                            assert(outputs@.subrange(0, base) =~= pre_out.subrange(0, base));
                        }
                    },
                    Option::None => {},
                }
                proof {
                    assert(self.pending_keys() == old(self).pending_keys());
                    assert(self.inv());
                }
                loop
                    invariant
                        self.inv(),
                        old(self).inv(),
                        self.cseq == old(self).cseq,
                        self.buffer_tx == old(self).buffer_tx,
                        self.buffer_rx == old(self).buffer_rx,
                        self.cmd_pending == old(self).cmd_pending,
                        self.cmd_retry == old(self).cmd_retry,
                        self.authorizer == old(self).authorizer,
                        self.user == old(self).user,
                        self.pass == old(self).pass,
                        self.shutdown == old(self).shutdown,
                        0 <= base <= outputs@.len(),
                        outputs@.subrange(0, base) == old(outputs)@,
                        base == old(outputs)@.len(),
                        reply_ids(outputs@.skip(base)) == Multiset::<u64>::empty(),
                    ensures
                        self.inv(),
                        self.cseq == old(self).cseq,
                        self.buffer_tx == old(self).buffer_tx,
                        self.buffer_rx == old(self).buffer_rx,
                        self.cmd_pending == old(self).cmd_pending,
                        self.cmd_retry == old(self).cmd_retry,
                        self.authorizer == old(self).authorizer,
                        self.user == old(self).user,
                        self.pass == old(self).pass,
                        self.shutdown == old(self).shutdown,
                        0 <= base <= outputs@.len(),
                        outputs@.subrange(0, base) == old(outputs)@,
                        base == old(outputs)@.len(),
                        reply_ids(outputs@.skip(base)) == Multiset::<u64>::empty(),
                        self.spec_reorder_seqs().len() == 0 || (
                        self.spec_reorder_last() matches Some(l)
                            && crate::rtp::queue::spec_seq_dist(self.spec_reorder_seqs()[0], l) != 1
                            && self.spec_reorder_seqs().len() < self.spec_reorder_max()),
                    decreases self.reorder.spec_seqs().len(),
                {
                    let ghost pre_loop = *self;
                    let ghost pre_pop = *self;
                    let released = match self.reorder.pop() {
                        Option::Some(q) => q,
                        Option::None => {
                            proof {
                                crate::rtp::queue::lemma_queue_ordered(&self.reorder);
                                assert(self.spec_reorder_seqs().len() == 0 || (
                                self.spec_reorder_last() matches Some(l)
                                    && crate::rtp::queue::spec_seq_dist(
                                    self.spec_reorder_seqs()[0],
                                    l,
                                ) != 1 && self.spec_reorder_seqs().len()
                                    < self.spec_reorder_max()));
                            }
                            break;
                        },
                    };
                    proof {
                        assert(self.pending_keys() == pre_loop.pending_keys());
                        assert(self.inv());
                    }
                    let ghost pre_out = outputs@;
                    outputs.push(Output::Media(released));
                    proof {
                        assert(outputs@.skip(base) =~= pre_out.skip(base).push(
                            Output::Media(released),
                        ));
                        lemma_reply_ids_push(pre_out.skip(base), Output::Media(released));
                        assert(outputs@.subrange(0, base) =~= pre_out.subrange(0, base));
                    }
                }
                Ok(total)
            },
        }
    }

    /// Classifies the front of the receive buffer: a `$` byte opens an
    /// interleaved frame, anything else is RTSP text; an empty buffer spans
    /// zero bytes.
    fn read_packet(&mut self, outputs: &mut Vec<Output>) -> (r: Result<usize, ChannelError>)
        requires
            old(self).inv(),
        ensures
            final(self).inv(),
            final(self).spec_cseq() == old(self).spec_cseq(),
            final(self).spec_tx() == old(self).spec_tx(),
            final(self).spec_rx() == old(self).spec_rx(),
            final(self).spec_shutdown() == old(self).spec_shutdown(),
            final(outputs)@.len() >= old(outputs)@.len(),
            final(outputs)@.subrange(0, old(outputs)@.len() as int) == old(outputs)@,
            final(self).owned_ids().add(
                reply_ids(final(outputs)@.skip(old(outputs)@.len() as int)),
            ) =~= old(self).owned_ids(),
            r matches Ok(n) ==> n <= old(self).spec_rx().len(),
            r matches Ok(n) ==> n == 0 ==> (*final(self) == *old(self) && final(outputs)@ == old(
                outputs,
            )@ && (old(self).spec_rx().len() == 0 || (old(self).spec_rx()[0] == 0x24 && (old(
                self,
            ).spec_rx().len() < 4 || 4 + spec_be16(old(self).spec_rx(), 2) > old(
                self,
            ).spec_rx().len())))),
            r is Err ==> (*final(self) == *old(self) && final(outputs)@ == old(outputs)@ && old(
                self,
            ).spec_rx().len() > 0 && old(self).spec_rx()[0] != 0x24),
            r matches Err(e) ==> e is IncompleteResponse ==> rx_head_blocked(old(self).spec_rx()),
            (old(self).spec_rx().len() > 0 && old(self).spec_rx()[0] != 0x24) ==> ({
                let dv = crate::rtsp::response::spec_drive(
                    crate::rtsp::response::spec_initial_model(),
                    old(self).spec_rx(),
                );
                let c = spec_collect(dv.items);
                (!c.bad_cseq && dv.error is None && dv.model.state is Done) ==> ({
                    &&& (r is Ok <==> (c.cseq matches Some(k) && old(self).pending_keys().contains(
                        k,
                    )))
                    &&& (r matches Ok(n) ==> n == dv.model.pos)
                    &&& spec_dispatch_post(
                        *old(self),
                        *final(self),
                        old(outputs)@,
                        final(outputs)@,
                        c.cseq,
                        c.status,
                        c.www,
                        c.body,
                        r is Ok,
                    )
                })
            }),
    {
        proof {
            broadcast use vstd::multiset::group_multiset_axioms;
        }
        let is_empty: bool;
        let is_interleaved: bool;
        {
            let buf = self.buffer_rx.get_read_slice();
            is_empty = buf.len() == 0;
            is_interleaved = !is_empty && buf[0] == 0x24;
        }
        if is_empty {
            proof {
                assert(outputs@.skip(outputs@.len() as int) =~= Seq::<Output>::empty());
                assert(outputs@.subrange(0, outputs@.len() as int) =~= outputs@);
            }
            return Ok(0);
        }
        if is_interleaved {
            self.read_interleaved(outputs)
        } else {
            let r = self.read_rtsp_packet(outputs);
            proof {
                if r is Err && r->Err_0 is IncompleteResponse {
                    let data = old(self).spec_rx();
                    let dv = crate::rtsp::response::spec_drive(
                        crate::rtsp::response::spec_initial_model(),
                        data,
                    );
                    let c = spec_collect(dv.items);
                    assert(!c.bad_cseq);
                    match dv.error {
                        Option::Some(pe) => {
                            assert(pe is MissingEndOfLine && data.len() <= 1024);
                        },
                        Option::None => {
                            assert(!(dv.model.state is Done));
                            assert(dv.model.header_length + dv.model.content_length - dv.model.pos
                                <= 32768);
                        },
                    }
                    assert(rx_head_blocked(data));
                }
            }
            r
        }
    }

    /// Stores freshly read stream bytes; a receive buffer that cannot hold
    /// them shuts the session down, cancelling every owed command. Returns
    /// whether the bytes were stored.
    pub fn push_received(&mut self, data: &[u8], outputs: &mut Vec<Output>) -> (r: bool)
        requires
            old(self).inv(),
        ensures
            final(self).inv(),
            final(self).spec_cseq() == old(self).spec_cseq(),
            final(self).spec_tx() == old(self).spec_tx(),
            final(outputs)@.len() >= old(outputs)@.len(),
            final(outputs)@.subrange(0, old(outputs)@.len() as int) == old(outputs)@,
            r ==> final(self).spec_rx() == old(self).spec_rx() + data@ && final(outputs)@ == old(
                outputs,
            )@ && final(self).owned_ids() == old(self).owned_ids() && final(self).spec_shutdown()
                == old(self).spec_shutdown(),
            !r ==> final(self).spec_shutdown() && final(self).owned_ids()
                == Multiset::<u64>::empty() && reply_ids(
                final(outputs)@.skip(old(outputs)@.len() as int),
            ) == old(self).owned_ids() && all_cancelled(
                final(outputs)@.skip(old(outputs)@.len() as int),
            ),
            !r <==> Channel::buffer_refuses(old(self).spec_rx_buf(), data@.len() as int),
    {
        match self.buffer_rx.write_bytes(data) {
            Result::Ok(u) => {
                proof {
                    assert(self.pending_keys() == old(self).pending_keys());
                    assert(self.owned_ids() == old(self).owned_ids());
                    assert(self.inv());
                }
                true
            },
            Result::Err(e) => {
                proof {
                    assert(self.pending_keys() == old(self).pending_keys());
                    assert(self.owned_ids() == old(self).owned_ids());
                    assert(self.inv());
                }
                self.shutdown(outputs);
                false
            },
        }
    }

    /// Drains the receive buffer: responses are dispatched and interleaved
    /// media released, frame by frame, until the data runs out or only an
    /// incomplete frame is left; any other fault shuts the session down.
    /// No command is silently lost: the replies emitted and the commands
    /// still owed add up to what was owed before. When the whole buffer is
    /// one complete response naming a pending command, the outcome is
    /// exactly one dispatch of it.
    pub fn handle_data(&mut self, outputs: &mut Vec<Output>)
        requires
            old(self).inv(),
        ensures
            final(self).inv(),
            final(self).spec_cseq() == old(self).spec_cseq(),
            final(self).spec_tx() == old(self).spec_tx(),
            final(outputs)@.len() >= old(outputs)@.len(),
            final(outputs)@.subrange(0, old(outputs)@.len() as int) == old(outputs)@,
            final(self).owned_ids().add(
                reply_ids(final(outputs)@.skip(old(outputs)@.len() as int)),
            ) =~= old(self).owned_ids(),
            exists|n: int|
                0 <= n <= old(self).spec_rx().len() && final(self).spec_rx()
                    == old(self).spec_rx().skip(n),
            !final(self).spec_shutdown() ==> rx_head_blocked(final(self).spec_rx()),
            ({
                let data = old(self).spec_rx();
                let dv = crate::rtsp::response::spec_drive(
                    crate::rtsp::response::spec_initial_model(),
                    data,
                );
                let c = spec_collect(dv.items);
                (data.len() > 0 && data[0] != 0x24 && !c.bad_cseq && dv.error is None
                    && dv.model.state is Done && dv.model.pos == data.len() && (
                c.cseq matches Some(k) && old(self).pending_keys().contains(k)))
                    ==> (final(self).spec_rx().len() == 0 && spec_dispatch_post(
                    *old(self),
                    *final(self),
                    old(outputs)@,
                    final(outputs)@,
                    c.cseq,
                    c.status,
                    c.www,
                    c.body,
                    true,
                ))
            }),
    {
        proof {
            broadcast use group_to_multiset_ensures;
        }
        let ghost base = outputs@.len() as int;
        let ghost mut consumed: int = 0;
        proof {
            assert(outputs@.skip(base) =~= Seq::<Output>::empty());
            assert(outputs@.subrange(0, base) =~= outputs@);
            assert(self.spec_rx() =~= old(self).spec_rx().skip(0));
        }
        loop
            invariant_except_break
                self.inv(),
                self.cseq == old(self).cseq,
                self.spec_tx() == old(self).spec_tx(),
                0 <= base <= outputs@.len(),
                outputs@.subrange(0, base) == old(outputs)@,
                base == old(outputs)@.len(),
                self.owned_ids().add(reply_ids(outputs@.skip(base))) =~= old(self).owned_ids(),
                0 <= consumed <= old(self).spec_rx().len(),
                self.spec_rx() == old(self).spec_rx().skip(consumed),
                ({
                    let data = old(self).spec_rx();
                    let dv = crate::rtsp::response::spec_drive(
                        crate::rtsp::response::spec_initial_model(),
                        data,
                    );
                    let c = spec_collect(dv.items);
                    (data.len() > 0 && data[0] != 0x24 && !c.bad_cseq && dv.error is None
                        && dv.model.state is Done && dv.model.pos == data.len() && (
                    c.cseq matches Some(k) && old(self).pending_keys().contains(k))) ==> ((*self
                        == *old(self) && outputs@ == old(outputs)@) || (self.spec_rx().len() == 0
                        && spec_dispatch_post(
                        *old(self),
                        *self,
                        old(outputs)@,
                        outputs@,
                        c.cseq,
                        c.status,
                        c.www,
                        c.body,
                        true,
                    )))
                }),
            ensures
                self.inv(),
                self.cseq == old(self).cseq,
                self.spec_tx() == old(self).spec_tx(),
                0 <= base <= outputs@.len(),
                outputs@.subrange(0, base) == old(outputs)@,
                base == old(outputs)@.len(),
                self.owned_ids().add(reply_ids(outputs@.skip(base))) =~= old(self).owned_ids(),
                0 <= consumed <= old(self).spec_rx().len(),
                self.spec_rx() == old(self).spec_rx().skip(consumed),
                !self.spec_shutdown() ==> rx_head_blocked(self.spec_rx()),
                ({
                    let data = old(self).spec_rx();
                    let dv = crate::rtsp::response::spec_drive(
                        crate::rtsp::response::spec_initial_model(),
                        data,
                    );
                    let c = spec_collect(dv.items);
                    (data.len() > 0 && data[0] != 0x24 && !c.bad_cseq && dv.error is None
                        && dv.model.state is Done && dv.model.pos == data.len() && (
                    c.cseq matches Some(k) && old(self).pending_keys().contains(k))) ==> (
                    self.spec_rx().len() == 0 && spec_dispatch_post(
                        *old(self),
                        *self,
                        old(outputs)@,
                        outputs@,
                        c.cseq,
                        c.status,
                        c.www,
                        c.body,
                        true,
                    ))
                }),
            decreases self.buffer_rx@.len(),
        {
            let ghost pre = *self;
            let ghost pre_out = outputs@;
            match self.read_packet(outputs) {
                Result::Ok(n) => {
                    proof {
                        assert(outputs@.skip(base) =~= pre_out.skip(base) + outputs@.skip(
                            pre_out.len() as int,
                        ));
                        lemma_reply_ids_concat(
                            pre_out.skip(base),
                            outputs@.skip(pre_out.len() as int),
                        );
                        assert(outputs@.subrange(0, base) =~= old(outputs)@);
                    }
                    if n == 0 {
                        proof {
                            assert(rx_head_blocked(self.spec_rx()));
                        }
                        break;
                    }
                    let ghost pre_read = *self;
                    self.buffer_rx.notify_read(n);
                    proof {
                        assert(self.pending_keys() == pre_read.pending_keys());
                        assert(self.owned_ids() == pre_read.owned_ids());
                        assert(self.inv());
                        assert(self.spec_rx() =~= old(self).spec_rx().skip(consumed + n));
                        consumed = consumed + n;
                    }
                },
                Result::Err(e) => {
                    proof {
                        assert(outputs@.skip(base) =~= pre_out.skip(base) + outputs@.skip(
                            pre_out.len() as int,
                        ));
                        lemma_reply_ids_concat(
                            pre_out.skip(base),
                            outputs@.skip(pre_out.len() as int),
                        );
                        assert(outputs@.subrange(0, base) =~= old(outputs)@);
                    }
                    let fatal = match &e {
                        ChannelError::IncompleteResponse => false,
                        _ => true,
                    };
                    if fatal {
                        let ghost mid_out = outputs@;
                        let ghost mid_self = *self;
                        self.shutdown(outputs);
                        proof {
                            assert(mid_out.skip(base) =~= pre_out.skip(base) + mid_out.skip(
                                pre_out.len() as int,
                            ));
                            lemma_reply_ids_concat(
                                pre_out.skip(base),
                                mid_out.skip(pre_out.len() as int),
                            );
                            assert(outputs@.skip(base) =~= mid_out.skip(base) + outputs@.skip(
                                mid_out.len() as int,
                            ));
                            lemma_reply_ids_concat(
                                mid_out.skip(base),
                                outputs@.skip(mid_out.len() as int),
                            );
                            assert(outputs@.subrange(0, base) =~= old(outputs)@);
                            assert(reply_ids(outputs@.skip(mid_out.len() as int))
                                == mid_self.owned_ids());
                            assert(self.owned_ids().add(
                                reply_ids(outputs@.skip(base)),
                            ) =~= old(self).owned_ids());
                        }
                    } else {
                        proof {
                            assert(rx_head_blocked(self.spec_rx()));
                        }
                    }
                    break;
                },
            }
        }
        proof {
            assert(outputs@.subrange(0, base) =~= old(outputs)@);
        }
    }

    /// Hands the bytes awaiting transmission over and clears them; the
    /// surrounding process writes them to the stream.
    pub fn take_transmit(&mut self) -> (r: Vec<u8>)
        requires
            old(self).inv(),
        ensures
            final(self).inv(),
            r@ == old(self).spec_tx(),
            final(self).spec_tx() == Seq::<u8>::empty(),
            final(self).spec_rx() == old(self).spec_rx(),
            final(self).spec_cseq() == old(self).spec_cseq(),
            final(self).spec_shutdown() == old(self).spec_shutdown(),
            final(self).owned_ids() == old(self).owned_ids(),
            final(self).spec_authorizer() == old(self).spec_authorizer(),
    {
        let out = bytes::copy_to_vec(self.buffer_tx.get_read_slice());
        let n = out.len();
        self.buffer_tx.notify_read(n);
        proof {
            assert(self.pending_keys() == old(self).pending_keys());
            assert(self.owned_ids() == old(self).owned_ids());
            assert(self.inv());
            assert(self.spec_tx() =~= Seq::<u8>::empty());
        }
        out
    }
}


impl Channel {
    /// Whether the channel has shut down.
    pub fn is_shutdown(&self) -> (r: bool)
        ensures
            r == self.spec_shutdown(),
    {
        self.shutdown
    }

    /// The sequence number the next command will take.
    pub fn next_sequence(&self) -> (r: u32)
        ensures
            r == self.spec_cseq(),
    {
        self.cseq
    }

    /// How many commands wait in the retry queue.
    pub fn retry_pending(&self) -> (r: usize)
        ensures
            r == self.retry_len(),
    {
        self.cmd_retry.len()
    }
}


/// What reading a serialised request back yields: the method token to the
/// first space, the target to the next, and the `CSeq` value from the first
/// header line.
pub open spec fn spec_parse_request_bytes(s: Seq<u8>) -> Option<(Method, Seq<u8>, u32)> {
    match find_index(s, 0x20, 0) {
        Option::None => None,
        Option::Some(p1) => match spec_parse_method(s.subrange(0, p1)) {
            Result::Err(e) => None,
            Result::Ok(m) => {
                let rest = s.subrange(p1 + 1, s.len() as int);
                match find_index(rest, 0x20, 0) {
                    Option::None => None,
                    Option::Some(p2) => {
                        let uri = rest.subrange(0, p2);
                        match find_crlf_index(rest, p2) {
                            Option::None => None,
                            Option::Some(e1) => match find_crlf_index(rest, e1 + 2) {
                                Option::None => None,
                                Option::Some(e2) => {
                                    let line = rest.subrange(e1 + 2, e2);
                                    match spec_parse_header(line) {
                                        Result::Err(e) => None,
                                        Result::Ok((name, value)) => {
                                            if name == cseq_header() {
                                                match parse_u32_spec(value) {
                                                    Result::Ok(c) => Some((m, uri, c)),
                                                    Result::Err(e) => None,
                                                }
                                            } else {
                                                None
                                            }
                                        },
                                    }
                                },
                            },
                        }
                    },
                }
            },
        },
    }
}

/// The wire name of every method is free of spaces and line ends.
proof fn lemma_method_name_clean(m: Method)
    ensures
        forall|i: int| 0 <= i < method_name(m).len() ==> #[trigger] method_name(m)[i] != 0x20
            && method_name(m)[i] != 0x0d,
{
    let n = method_name(m);
    match m {
        Method::Options => {
            assert forall|i: int| 0 <= i < n.len() implies #[trigger] n[i] != 0x20 && n[i]
                != 0x0d by {
                assert(n =~= seq![0x4fu8, 0x50, 0x54, 0x49, 0x4f, 0x4e, 0x53]);
            }
        },
        Method::Describe => {
            assert forall|i: int| 0 <= i < n.len() implies #[trigger] n[i] != 0x20 && n[i]
                != 0x0d by {
                assert(n =~= seq![0x44u8, 0x45, 0x53, 0x43, 0x52, 0x49, 0x42, 0x45]);
            }
        },
        Method::Setup => {
            assert forall|i: int| 0 <= i < n.len() implies #[trigger] n[i] != 0x20 && n[i]
                != 0x0d by {
                assert(n =~= seq![0x53u8, 0x45, 0x54, 0x55, 0x50]);
            }
        },
        Method::Play => {
            assert forall|i: int| 0 <= i < n.len() implies #[trigger] n[i] != 0x20 && n[i]
                != 0x0d by {
                assert(n =~= seq![0x50u8, 0x4c, 0x41, 0x59]);
            }
        },
        Method::Teardown => {
            assert forall|i: int| 0 <= i < n.len() implies #[trigger] n[i] != 0x20 && n[i]
                != 0x0d by {
                assert(n =~= seq![0x54u8, 0x45, 0x41, 0x52, 0x44, 0x4f, 0x57, 0x4e]);
            }
        },
    }
}

/// Round trip: reading a serialised request back yields the method, the
/// target and the sequence number it was built from, for every target
/// without spaces or carriage returns.
#[verifier::rlimit(100)]
#[verifier::spinoff_prover]
pub proof fn lemma_request_round_trip(m: Method, uri: Seq<u8>, cseq: u32)
    requires
        uri.len() > 0,
        forall|i: int| 0 <= i < uri.len() ==> #[trigger] uri[i] != 0x20 && uri[i] != 0x0d,
    ensures
        spec_parse_request_bytes(spec_request_bytes(m, uri, cseq, None)) == Some((m, uri, cseq)),
{
    let s = spec_request_bytes(m, uri, cseq, None);
    let name = method_name(m);
    let digits = dec_repr(cseq as nat);
    crate::bytes::lemma_dec_repr_props(cseq as nat);
    lemma_method_name_clean(m);
    // the request line's fixed middle and the following lines, spelled out
    let t = seq![0x20u8, 0x52, 0x54, 0x53, 0x50, 0x2f, 0x31, 0x2e, 0x30, 0x0d, 0x0a, 0x43, 0x53,
        0x65, 0x71, 0x3a, 0x20] + digits + seq![0x0du8, 0x0a, 0x55, 0x73, 0x65, 0x72, 0x2d, 0x41,
        0x67, 0x65, 0x6e, 0x74, 0x3a, 0x20, 0x72, 0x73, 0x2d, 0x73, 0x74, 0x72, 0x65, 0x61, 0x6d,
        0x65, 0x72, 0x0d, 0x0a, 0x0d, 0x0a];
    assert(crate::rtsp::request::spec_version_text(Version(1, 0)) =~= seq![0x31u8, 0x2e, 0x30]);
    assert(s =~= name + seq![0x20u8] + uri + t);
    // 1: the first space ends the method token
    lemma_find_index(s, 0x20, 0);
    let p1 = name.len() as int;
    assert(s[p1] == 0x20);
    assert(forall|i: int| 0 <= i < p1 ==> #[trigger] s[i] == name[i]);
    match find_index(s, 0x20, 0) {
        Option::None => {
            assert(false);
        },
        Option::Some(k) => {
            assert(!(k < p1));
            assert(!(p1 < k));
            assert(k == p1);
        },
    }
    assert(s.subrange(0, p1) =~= name);
    crate::rtsp::method::lemma_method_names_distinct(m);
    assert(spec_parse_method(name) == Ok::<Method, crate::rtsp::method::ParseMethodError>(m));
    // 2: the second space ends the target
    let rest = s.subrange(p1 + 1, s.len() as int);
    assert(rest =~= uri + t);
    lemma_find_index(rest, 0x20, 0);
    let p2 = uri.len() as int;
    assert(t[0] == 0x20);
    assert(rest[p2] == 0x20);
    assert(forall|i: int| 0 <= i < p2 ==> #[trigger] rest[i] == uri[i]);
    match find_index(rest, 0x20, 0) {
        Option::None => {
            assert(false);
        },
        Option::Some(k) => {
            assert(!(k < p2));
            assert(!(p2 < k));
            assert(k == p2);
        },
    }
    assert(rest.subrange(0, p2) =~= uri);
    // 3: the request line ends nine bytes on
    lemma_find_crlf_index(rest, p2);
    let e1 = p2 + 9;
    assert(forall|i: int| 0 <= i < t.len() ==> #[trigger] rest[p2 + i] == t[i]);
    assert(crlf_at(rest, e1));
    assert(forall|j: int| p2 <= j < e1 ==> !crlf_at(rest, j)) by {
        assert(forall|j: int| p2 <= j < e1 ==> #[trigger] rest[j] == t[j - p2]);
        assert(forall|j: int| 0 <= j < 9 ==> #[trigger] t[j] != 0x0d);
    }
    match find_crlf_index(rest, p2) {
        Option::None => {
            assert(false);
        },
        Option::Some(k) => {
            assert(!(k < e1));
            assert(!(e1 < k));
            assert(k == e1);
        },
    }
    // 4: the CSeq line ends after its six-byte prefix and the digits
    lemma_find_crlf_index(rest, e1 + 2);
    let e2 = e1 + 2 + 6 + digits.len();
    assert(forall|i: int| 0 <= i < digits.len() ==> is_digit(#[trigger] digits[i]));
    assert(crlf_at(rest, e2)) by {
        assert(rest[e2] == t[e2 - p2]);
        assert(rest[e2 + 1] == t[e2 + 1 - p2]);
        assert(t[17 + digits.len() as int] == 0x0d);
        assert(t[18 + digits.len() as int] == 0x0a);
    }
    assert(forall|j: int| e1 + 2 <= j < e2 ==> !crlf_at(rest, j)) by {
        assert(forall|j: int| e1 + 2 <= j < e2 ==> #[trigger] rest[j] == t[j - p2]);
        assert(forall|j: int| 11 <= j < 17 ==> #[trigger] t[j] != 0x0d);
        assert(forall|j: int| 17 <= j < 17 + digits.len() ==> #[trigger] t[j] == digits[j - 17]
            && t[j] != 0x0d);
    }
    match find_crlf_index(rest, e1 + 2) {
        Option::None => {
            assert(false);
        },
        Option::Some(k) => {
            assert(!(k < e2));
            assert(!(e2 < k));
            assert(k == e2);
        },
    }
    // 5: the line parses as the CSeq header with the decimal value
    let line = rest.subrange(e1 + 2, e2);
    assert(line =~= cseq_header() + seq![0x3au8, 0x20] + digits);
    lemma_find_index(line, 0x3a, 0);
    assert(line[4] == 0x3a);
    assert(forall|i: int| 0 <= i < 4 ==> #[trigger] line[i] == cseq_header()[i]);
    assert(cseq_header()[0] != 0x3a && cseq_header()[1] != 0x3a && cseq_header()[2] != 0x3a
        && cseq_header()[3] != 0x3a);
    match find_index(line, 0x3a, 0) {
        Option::None => {
            assert(false);
        },
        Option::Some(k) => {
            assert(!(k < 4)) by {
                assert(forall|i: int| 0 <= i < 4 ==> #[trigger] line[i] != 0x3a);
            }
            assert(!(4 < k));
            assert(k == 4);
        },
    }
    assert(line.subrange(0, 4) =~= cseq_header());
    assert(valid_header_name(cseq_header())) by {
        assert(forall|i: int| 0 <= i < 4 ==> is_name_byte(#[trigger] cseq_header()[i]));
    }
    let value = line.subrange(5, line.len() as int);
    assert(value =~= seq![0x20u8] + digits);
    assert(valid_header_value(value)) by {
        assert(forall|i: int| 0 <= i < value.len() ==> is_value_byte(#[trigger] value[i])) by {
            assert(value[0] == 0x20);
            assert(forall|i: int| 1 <= i < value.len() ==> #[trigger] value[i] == digits[i - 1]
                && is_digit(digits[i - 1]));
        }
    }
    // trimming the value strips the single leading space
    assert(trim_left(value) == value.subrange(1, value.len() as int)) by {
        crate::http::header::lemma_trim_left_one(value);
    }
    assert(value.subrange(1, value.len() as int) =~= digits);
    assert(trim_right(digits) == digits) by {
        crate::http::header::lemma_trim_right_none(digits);
    }
    assert(spec_trim(value) == digits);
    assert(spec_parse_header(line) == Ok::<(Seq<u8>, Seq<u8>), crate::http::header::ParseHeaderError>(
        (cseq_header(), digits),
    ));
    // 6: the digits read back as the sequence number
    assert(parse_u32_spec(digits) == Ok::<u32, crate::bytes::ParseIntError>(cseq));
}


/// Sequence numbers are unique and below the counter: every pending
/// command's `CSeq` is distinct, and smaller than the next to be assigned,
/// so the assigned values form a strictly increasing run from one.
pub proof fn lemma_pending_keys_strictly_ordered(c: &Channel)
    requires
        c.inv(),
    ensures
        forall|i: int| 0 <= i < c.pending_keys().len() ==> #[trigger] c.pending_keys()[i]
            < c.spec_cseq(),
        forall|i: int, j: int| 0 <= i < j < c.pending_keys().len() ==> #[trigger] c.pending_keys()[i]
            != #[trigger] c.pending_keys()[j],
{
}


/// The channel lifecycle: idle before the first command, active while
/// running, draining when shut down with bytes still to transmit, closed
/// when shut down and drained.
#[derive(Debug, Clone, Copy, PartialEq, Eq, Structural)]
pub enum Lifecycle {
    Idle,
    Active,
    Draining,
    Closed,
}

impl Channel {
    /// Where the channel stands in its lifecycle.
    pub open spec fn spec_lifecycle(&self) -> Lifecycle {
        if self.spec_shutdown() {
            if self.spec_tx().len() > 0 {
                Lifecycle::Draining
            } else {
                Lifecycle::Closed
            }
        } else if self.spec_cseq() == 1 {
            Lifecycle::Idle
        } else {
            Lifecycle::Active
        }
    }

    /// Where the channel stands in its lifecycle.
    pub fn lifecycle(&self) -> (r: Lifecycle)
        requires
            self.inv(),
        ensures
            r == self.spec_lifecycle(),
    {
        if self.shutdown {
            let tx = self.buffer_tx.get_read_slice();
            if tx.len() > 0 {
                Lifecycle::Draining
            } else {
                Lifecycle::Closed
            }
        } else if self.cseq == 1 {
            Lifecycle::Idle
        } else {
            Lifecycle::Active
        }
    }
}

} // verus!
