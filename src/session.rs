//! The per-connection SMTP state machine: commands, body transfer and
//! authentication steps, each gated by the admission limiter.

use crate::envelope::{append_dec, append_ip_text, dec_text, ip_text, EnvelopeKey, IpAddress};
use crate::limiter::{decision, fresh_model, model_after, InFlight, LimiterModel, ThrottleMap, ThrottleRule};
use crate::text::{domain_of, domain_part, lower_of, lowercase};
use crate::throttle::{sha256_of, ThrottleKey};
use std::cmp::Ordering;
use vstd::prelude::*;
use vstd::string::StringExecFns;
use vstd::utf8::encode_utf8;

verus! {

/// How strictly a mail-authentication check is applied.
#[derive(Debug, Clone, Copy, PartialEq, Eq, Structural)]
pub enum VerifyStrategy {
    Relaxed,
    Strict,
    Disable,
}

impl VerifyStrategy {
    /// Whether the check runs at all.
    pub fn verify(&self) -> (r: bool)
        ensures
            r == (*self == VerifyStrategy::Strict || *self == VerifyStrategy::Relaxed),
    {
        match self {
            VerifyStrategy::Strict | VerifyStrategy::Relaxed => true,
            VerifyStrategy::Disable => false,
        }
    }

    /// Whether a failed check rejects the message.
    pub fn is_strict(&self) -> (r: bool)
        ensures
            r == (*self == VerifyStrategy::Strict),
    {
        match self {
            VerifyStrategy::Strict => true,
            _ => false,
        }
    }
}

/// Lexicographic order of two character sequences by code point.
pub open spec fn lex_cmp(a: Seq<char>, b: Seq<char>) -> Ordering
    decreases a.len(),
{
    if a.len() == 0 && b.len() == 0 {
        Ordering::Equal
    } else if a.len() == 0 {
        Ordering::Less
    } else if b.len() == 0 {
        Ordering::Greater
    } else if (a[0] as u32) < (b[0] as u32) {
        Ordering::Less
    } else if (a[0] as u32) > (b[0] as u32) {
        Ordering::Greater
    } else {
        lex_cmp(a.drop_first(), b.drop_first())
    }
}

/// Relies on Ord for str: lexicographic order of the UTF-8 bytes, which is
/// the order of the characters' code points.
#[verifier::external_body]
fn cmp_text(a: &str, b: &str) -> (r: Ordering)
    ensures
        r == lex_cmp(a@, b@),
{
    a.cmp(b)
}

/// An envelope address: it is identified by its lower-case form and ordered
/// by domain, then by that form.
#[derive(Debug, Clone)]
pub struct SessionAddress {
    pub address: String,
    pub address_lcase: String,
    pub domain: String,
    pub flags: u64,
    pub dsn_info: Option<String>,
}

impl SessionAddress {
    pub fn new(address: String) -> (r: Self)
        ensures
            r.address@ == address@,
            r.address_lcase@ == lower_of(address@),
            r.domain@ == domain_of(lower_of(address@)),
            r.flags == 0,
            r.dsn_info.is_none(),
    {
        let address_lcase = lowercase(address.as_str());
        let domain = domain_part(address_lcase.as_str());
        SessionAddress { domain, address_lcase, address, flags: 0, dsn_info: None }
    }

    /// Domain first, then the lower-case address.
    pub fn compare(&self, other: &SessionAddress) -> (r: Ordering)
        ensures
            r == match lex_cmp(self.domain@, other.domain@) {
                Ordering::Equal => lex_cmp(self.address_lcase@, other.address_lcase@),
                o => o,
            },
    {
        match cmp_text(self.domain.as_str(), other.domain.as_str()) {
            Ordering::Equal => cmp_text(self.address_lcase.as_str(), other.address_lcase.as_str()),
            o => o,
        }
    }

    /// A copy of the address.
    pub fn duplicate(&self) -> (r: SessionAddress)
        ensures
            r == *self,
    {
        SessionAddress {
            address: self.address.clone(),
            address_lcase: self.address_lcase.clone(),
            domain: self.domain.clone(),
            flags: self.flags,
            dsn_info: match &self.dsn_info {
                Some(s) => Some(s.clone()),
                None => None,
            },
        }
    }
}

impl PartialEq for SessionAddress {
    fn eq(&self, other: &SessionAddress) -> (r: bool) {
        self.address_lcase == other.address_lcase
    }
}

impl vstd::std_specs::cmp::PartialEqSpecImpl for SessionAddress {
    open spec fn obeys_eq_spec() -> bool {
        true
    }

    open spec fn eq_spec(&self, other: &SessionAddress) -> bool {
        self.address_lcase@ == other.address_lcase@
    }
}

/// The outcome of a mail-authentication check (reverse DNS, SPF).
#[derive(Debug, Clone, Copy, PartialEq, Eq, Structural)]
pub enum AuthResult {
    Pass,
    Fail,
    SoftFail,
    Neutral,
    NoPolicy,
    TempError,
    PermError,
}

/// The mutable state of one connection.
#[derive(Debug)]
pub struct SessionData {
    pub local_ip: IpAddress,
    pub remote_ip: IpAddress,
    pub helo_domain: String,
    pub mail_from: Option<SessionAddress>,
    pub rcpt_to: Vec<SessionAddress>,
    pub rcpt_errors: usize,
    pub message: Vec<u8>,
    pub authenticated_as: String,
    pub auth_errors: usize,
    pub priority: i16,
    pub delivery_by: i64,
    pub future_release: u64,
    pub valid_until: u64,
    pub bytes_left: usize,
    pub messages_sent: usize,
    pub iprev: Option<AuthResult>,
    pub spf_ehlo: Option<AuthResult>,
    pub spf_mail_from: Option<AuthResult>,
    pub dnsbl_error: Option<Vec<u8>>,
}

/// No counter has moved, nothing is scheduled and no check has run.
pub open spec fn fresh_counters(d: SessionData) -> bool {
    &&& d.rcpt_errors == 0
    &&& d.auth_errors == 0
    &&& d.messages_sent == 0
    &&& d.bytes_left == 0
    &&& d.priority == 0
    &&& d.delivery_by == 0
    &&& d.future_release == 0
    &&& d.valid_until == 0
    &&& d.iprev.is_none()
    &&& d.spf_ehlo.is_none()
    &&& d.spf_mail_from.is_none()
    &&& d.dnsbl_error.is_none()
}

impl SessionData {
    /// The state of a freshly accepted connection.
    pub fn new(local_ip: IpAddress, remote_ip: IpAddress) -> (r: Self)
        ensures
            r.local_ip == local_ip,
            r.remote_ip == remote_ip,
            r.helo_domain@.len() == 0,
            r.mail_from.is_none(),
            r.rcpt_to@.len() == 0,
            r.message@.len() == 0,
            r.authenticated_as@.len() == 0,
            fresh_counters(r),
    {
        SessionData {
            local_ip,
            remote_ip,
            helo_domain: String::new(),
            mail_from: None,
            rcpt_to: Vec::new(),
            rcpt_errors: 0,
            message: Vec::new(),
            authenticated_as: String::new(),
            auth_errors: 0,
            priority: 0,
            delivery_by: 0,
            future_release: 0,
            valid_until: 0,
            bytes_left: 0,
            messages_sent: 0,
            iprev: None,
            spf_ehlo: None,
            spf_mail_from: None,
            dnsbl_error: None,
        }
    }

    /// The state of a local submission that bypasses the wire.
    pub fn local(
        mail_from: Option<SessionAddress>,
        rcpt_to: Vec<SessionAddress>,
        message: Vec<u8>,
    ) -> (r: Self)
        ensures
            r.local_ip == IpAddress::V4([127u8, 0u8, 0u8, 1u8]),
            r.remote_ip == IpAddress::V4([127u8, 0u8, 0u8, 1u8]),
            r.helo_domain@ == "localhost"@,
            r.mail_from == mail_from,
            r.rcpt_to == rcpt_to,
            r.message == message,
            r.authenticated_as@ == "local"@,
            fresh_counters(r),
    {
        SessionData {
            local_ip: crate::envelope::localhost_v4(),
            remote_ip: crate::envelope::localhost_v4(),
            helo_domain: String::from_str("localhost"),
            mail_from,
            rcpt_to,
            rcpt_errors: 0,
            message,
            authenticated_as: String::from_str("local"),
            auth_errors: 0,
            priority: 0,
            delivery_by: 0,
            future_release: 0,
            valid_until: 0,
            bytes_left: 0,
            messages_sent: 0,
            iprev: None,
            spf_ehlo: None,
            spf_mail_from: None,
            dnsbl_error: None,
        }
    }
}

/// The command at which a throttle is consulted.
#[derive(Debug, Clone, Copy, PartialEq, Eq, Structural)]
pub enum Stage {
    Mail,
    Rcpt,
    Data,
    Auth,
}

/// A throttle of the session: at `stage`, the key made of the dimensions
/// `keys` must be admitted under `rule`.
#[derive(Debug)]
pub struct SessionThrottle {
    pub stage: Stage,
    pub keys: Vec<EnvelopeKey>,
    pub rule: ThrottleRule,
}

/// Per-connection policy, resolved once when the connection is accepted.
#[derive(Debug)]
pub struct SessionParameters {
    pub timeout: u64,
    pub ehlo_require: bool,
    pub auth_require: bool,
    pub auth_errors_max: usize,
    pub auth_errors_wait: u64,
    pub rcpt_errors_max: usize,
    pub rcpt_errors_wait: u64,
    pub rcpt_max: usize,
    pub can_expn: bool,
    pub can_vrfy: bool,
    pub max_message_size: usize,
    pub iprev: VerifyStrategy,
    pub spf_ehlo: VerifyStrategy,
    pub spf_mail_from: VerifyStrategy,
    pub dnsbl_policy: u32,
    pub throttle: Vec<SessionThrottle>,
}

/// The parameters of a local session: every limit and wait zero, nothing
/// required, no EXPN or VRFY, every check off and no throttle.
pub open spec fn is_local_params(p: SessionParameters) -> bool {
    &&& p.timeout == 0
    &&& !p.ehlo_require
    &&& !p.auth_require
    &&& p.auth_errors_max == 0
    &&& p.auth_errors_wait == 0
    &&& p.rcpt_errors_max == 0
    &&& p.rcpt_errors_wait == 0
    &&& p.rcpt_max == 0
    &&& !p.can_expn
    &&& !p.can_vrfy
    &&& p.max_message_size == 0
    &&& p.iprev == VerifyStrategy::Disable
    &&& p.spf_ehlo == VerifyStrategy::Disable
    &&& p.spf_mail_from == VerifyStrategy::Disable
    &&& p.dnsbl_policy == 0
    &&& p.throttle@.len() == 0
}

impl SessionParameters {
    /// The parameters of a local session: no limits consulted, checks off.
    pub fn local() -> (r: Self)
        ensures
            is_local_params(r),
    {
        SessionParameters {
            timeout: 0,
            ehlo_require: false,
            auth_require: false,
            auth_errors_max: 0,
            auth_errors_wait: 0,
            rcpt_errors_max: 0,
            rcpt_errors_wait: 0,
            rcpt_max: 0,
            can_expn: false,
            can_vrfy: false,
            max_message_size: 0,
            iprev: VerifyStrategy::Disable,
            spf_ehlo: VerifyStrategy::Disable,
            spf_mail_from: VerifyStrategy::Disable,
            dnsbl_policy: 0,
            throttle: Vec::new(),
        }
    }
}

/// How an oversized unit is drained: a declared number of bytes, or up to
/// the end-of-data terminator (with the terminator's progress so far).
#[derive(Debug, Clone, Copy, PartialEq, Eq, Structural)]
pub enum Drain {
    Counted { remaining: usize },
    Terminated { matched: u8 },
}

/// The protocol phase of a session.
#[derive(Debug, Clone, Copy, PartialEq, Eq, Structural)]
pub enum State {
    /// Awaiting a command line.
    Request,
    /// Receiving a chunk of declared length.
    Bdat { remaining: usize, is_last: bool },
    /// Receiving a dot-terminated body; `matched` is the terminator's progress.
    Data { matched: u8 },
    /// Awaiting a continuation line of an authentication exchange.
    Sasl,
    /// Draining an oversized body without buffering it.
    DataTooLarge(Drain),
    /// Draining an oversized command line up to its end.
    RequestTooLarge,
    /// The message was accepted under this id; the transaction is over.
    Accepted(u64),
    /// A local session that bypasses the wire.
    Local,
}

/// What the connection does after a reply.
#[derive(Debug, Clone, Copy, PartialEq, Eq, Structural)]
pub enum Action {
    Continue,
    Delay(u64),
    Disconnect,
}

/// A reply: its code, its enhanced status code and what follows it.
#[derive(Debug, Clone, Copy, PartialEq, Eq, Structural)]
pub struct Reply {
    pub code: u16,
    pub class: u8,
    pub subject: u8,
    pub detail: u8,
    pub action: Action,
}

/// The reply with these codes, after which the session goes on.
pub open spec fn plain(code: u16, class: u8, subject: u8, detail: u8) -> Reply {
    Reply { code, class, subject, detail, action: Action::Continue }
}

fn reply(code: u16, class: u8, subject: u8, detail: u8) -> (r: Reply)
    ensures
        r == plain(code, class, subject, detail),
{
    Reply { code, class, subject, detail, action: Action::Continue }
}

/// A parsed command.
#[derive(Debug)]
pub enum Request {
    Ehlo { host: String },
    Mail { from: String },
    Rcpt { to: String },
    Data,
    Bdat { chunk_size: usize, is_last: bool },
    Auth,
    Rset,
    Noop,
    Quit,
}

/// The decimal text of a signed value.
pub open spec fn int_text(v: int) -> Seq<u8> {
    if v < 0 {
        seq![45u8] + dec_text((-v) as nat)
    } else {
        dec_text(v as nat)
    }
}

/// An address as its lower-case form and its domain.
pub type AddressView = (Seq<char>, Seq<char>);

pub open spec fn address_view(a: Option<SessionAddress>) -> Option<AddressView> {
    match a {
        Some(x) => Some((x.address_lcase@, x.domain@)),
        None => None,
    }
}

/// The view of the address made of `text`.
pub open spec fn text_address_view(text: Seq<char>) -> AddressView {
    (lower_of(text), domain_of(lower_of(text)))
}

/// The bytes that a policy dimension contributes to an admission key;
/// `sender` and `rcpt` are the addresses under consideration, if any.
pub open spec fn dimension(
    d: SessionData,
    listener: u16,
    sender: Option<AddressView>,
    rcpt: Option<AddressView>,
    k: EnvelopeKey,
) -> Seq<u8> {
    match k {
        EnvelopeKey::Recipient => match rcpt {
            Some(a) => encode_utf8(a.0),
            None => Seq::empty(),
        },
        EnvelopeKey::RecipientDomain => match rcpt {
            Some(a) => encode_utf8(a.1),
            None => Seq::empty(),
        },
        EnvelopeKey::Sender => match sender {
            Some(a) => encode_utf8(a.0),
            None => Seq::empty(),
        },
        EnvelopeKey::SenderDomain => match sender {
            Some(a) => encode_utf8(a.1),
            None => Seq::empty(),
        },
        EnvelopeKey::Mx => Seq::empty(),
        EnvelopeKey::AuthenticatedAs => encode_utf8(d.authenticated_as@),
        EnvelopeKey::HeloDomain => encode_utf8(d.helo_domain@),
        EnvelopeKey::Listener => dec_text(listener as nat),
        EnvelopeKey::RemoteIp => ip_text(d.remote_ip),
        EnvelopeKey::LocalIp => ip_text(d.local_ip),
        EnvelopeKey::Priority => int_text(d.priority as int),
    }
}

/// The concatenated dimensions from which a throttle key is digested.
pub open spec fn key_input(
    d: SessionData,
    listener: u16,
    sender: Option<AddressView>,
    rcpt: Option<AddressView>,
    keys: Seq<EnvelopeKey>,
) -> Seq<u8>
    decreases keys.len(),
{
    if keys.len() == 0 {
        Seq::empty()
    } else {
        key_input(d, listener, sender, rcpt, keys.drop_last()) + dimension(
            d,
            listener,
            sender,
            rcpt,
            keys.last(),
        )
    }
}

/// The admission key that throttle `t` derives.
pub open spec fn throttle_key_of(
    d: SessionData,
    listener: u16,
    sender: Option<AddressView>,
    rcpt: Option<AddressView>,
    t: SessionThrottle,
) -> Seq<u8> {
    sha256_of(key_input(d, listener, sender, rcpt, t.keys@))
}

/// The state that key `k` is judged from: its current state, or a fresh one.
pub open spec fn start_model(map: ThrottleMap, k: Seq<u8>, rule: ThrottleRule, now: u64) -> LimiterModel {
    match map.model_of(k) {
        Some(m) => m,
        None => fresh_model(rule, now),
    }
}

/// The session has exactly one throttle, and it is consulted at `stage`.
pub open spec fn sole_throttle(p: SessionParameters, stage: Stage) -> bool {
    p.throttle@.len() == 1 && p.throttle@[0].stage == stage
}

fn append_bytes(out: &mut Vec<u8>, b: &[u8])
    ensures
        final(out)@ == old(out)@ + b@,
{
    let mut i: usize = 0;
    while i < b.len()
        invariant
            0 <= i <= b@.len(),
            out@ =~= old(out)@ + b@.subrange(0, i as int),
        decreases b@.len() - i,
    {
        out.push(b[i]);
        i = i + 1;
    }
    proof {
        assert(b@.subrange(0, b@.len() as int) =~= b@);
    }
}

fn append_text(out: &mut Vec<u8>, s: &String)
    ensures
        final(out)@ == old(out)@ + encode_utf8(s@),
{
    append_bytes(out, s.as_str().as_bytes());
}

fn append_int(out: &mut Vec<u8>, v: i16)
    ensures
        final(out)@ == old(out)@ + int_text(v as int),
{
    if v < 0 {
        out.push(45);
        let ghost mid = out@;
        append_dec(out, (-(v as i32)) as u64);
        proof {
            assert(final(out)@ =~= old(out)@ + int_text(v as int));
        }
    } else {
        append_dec(out, v as u64);
    }
}

/// The whole transaction is reset: no sender, no recipients, no body.
pub open spec fn tx_cleared(d: SessionData) -> bool {
    &&& d.mail_from.is_none()
    &&& d.rcpt_to@.len() == 0
    &&& d.message@.len() == 0
}

/// Everything outside the transaction, the greeting and the message count is kept.
pub open spec fn keeps_session(a: SessionData, b: SessionData) -> bool {
    &&& b.local_ip == a.local_ip
    &&& b.remote_ip == a.remote_ip
    &&& b.rcpt_errors == a.rcpt_errors
    &&& b.authenticated_as == a.authenticated_as
    &&& b.auth_errors == a.auth_errors
    &&& b.priority == a.priority
    &&& b.delivery_by == a.delivery_by
    &&& b.future_release == a.future_release
    &&& b.valid_until == a.valid_until
    &&& b.iprev == a.iprev
    &&& b.spf_ehlo == a.spf_ehlo
    &&& b.spf_mail_from == a.spf_mail_from
    &&& b.dnsbl_error == a.dnsbl_error
}

/// Everything outside the transaction and the greeting is kept.
pub open spec fn keeps_connection(a: SessionData, b: SessionData) -> bool {
    &&& keeps_session(a, b)
    &&& b.messages_sent == a.messages_sent
}

/// `a` is the envelope address made of `text`.
pub open spec fn address_of(a: SessionAddress, text: Seq<char>) -> bool {
    &&& a.address@ == text
    &&& a.address_lcase@ == lower_of(text)
    &&& a.domain@ == domain_of(lower_of(text))
    &&& a.flags == 0
    &&& a.dsn_info.is_none()
}

/// Whether `list` already names the address whose lower-case form is `lcase`.
pub open spec fn lists_address(list: Seq<SessionAddress>, lcase: Seq<char>) -> bool {
    exists|j: int| 0 <= j < list.len() && (#[trigger] list[j]).address_lcase@ == lcase
}

/// Whether any throttle of `p` is consulted at `stage`.
pub open spec fn has_throttle(p: SessionParameters, stage: Stage) -> bool {
    exists|i: int| 0 <= i < p.throttle@.len() && (#[trigger] p.throttle@[i]).stage == stage
}

/// The permits held by a transaction; only the session takes and returns them.
#[derive(Debug)]
pub struct Permits {
    held: Vec<InFlight>,
}

impl Permits {
    pub closed spec fn view(&self) -> Seq<InFlight> {
        self.held@
    }

    pub fn len(&self) -> (r: usize)
        ensures
            r == self.view().len(),
    {
        self.held.len()
    }
}

/// One SMTP connection.
pub struct Session {
    pub state: State,
    pub data: SessionData,
    pub params: SessionParameters,
    pub listener_id: u16,
    pub in_flight: Permits,
}

impl Session {
    /// The permits held by the current transaction.
    pub closed spec fn permits(&self) -> Seq<InFlight> {
        self.in_flight.held@
    }

    pub fn new(data: SessionData, params: SessionParameters, listener_id: u16) -> (r: Self)
        ensures
            r.state == State::Request,
            r.data == data,
            r.params == params,
            r.listener_id == listener_id,
            r.permits().len() == 0,
    {
        Session { state: State::Request, data, params, listener_id, in_flight: Permits { held: Vec::new() } }
    }

    /// A session for a message submitted locally: it never touches the wire.
    pub fn local(data: SessionData) -> (r: Self)
        ensures
            r.state == State::Local,
            r.data == data,
            is_local_params(r.params),
            r.listener_id == u16::MAX,
            r.permits().len() == 0,
    {
        Session {
            state: State::Local,
            data,
            params: SessionParameters::local(),
            listener_id: u16::MAX,
            in_flight: Permits { held: Vec::new() },
        }
    }

    /// A local session for delivering `message` from `mail_from` to `rcpt_to`.
    pub fn sieve(mail_from: SessionAddress, rcpt_to: Vec<SessionAddress>, message: Vec<u8>) -> (r: Self)
        ensures
            r.state == State::Local,
            r.data.mail_from == Some(mail_from),
            r.data.rcpt_to == rcpt_to,
            r.data.message == message,
            r.data.local_ip == IpAddress::V4([127u8, 0u8, 0u8, 1u8]),
            r.data.remote_ip == IpAddress::V4([127u8, 0u8, 0u8, 1u8]),
            r.data.helo_domain@ == "localhost"@,
            r.data.authenticated_as@ == "local"@,
            fresh_counters(r.data),
            is_local_params(r.params),
            r.listener_id == u16::MAX,
            r.permits().len() == 0,
    {
        Session::local(SessionData::local(Some(mail_from), rcpt_to, message))
    }

    /// The admission key of a throttle with dimensions `keys`.
    pub fn throttle_key(
        &self,
        keys: &Vec<EnvelopeKey>,
        sender: &Option<SessionAddress>,
        rcpt: &Option<SessionAddress>,
    ) -> (r: ThrottleKey)
        ensures
            r.hash@ == sha256_of(key_input(self.data, self.listener_id, address_view(*sender), address_view(*rcpt), keys@)),
    {
        let mut input: Vec<u8> = Vec::new();
        let mut i: usize = 0;
        while i < keys.len()
            invariant
                0 <= i <= keys@.len(),
                input@ == key_input(self.data, self.listener_id, address_view(*sender), address_view(*rcpt), keys@.subrange(0, i as int)),
            decreases keys@.len() - i,
        {
            proof {
                assert(keys@.subrange(0, i + 1).drop_last() =~= keys@.subrange(0, i as int));
            }
            match keys[i] {
                EnvelopeKey::Recipient => match rcpt {
                    Some(a) => append_text(&mut input, &a.address_lcase),
                    None => {},
                },
                EnvelopeKey::RecipientDomain => match rcpt {
                    Some(a) => append_text(&mut input, &a.domain),
                    None => {},
                },
                EnvelopeKey::Sender => match sender {
                    Some(a) => append_text(&mut input, &a.address_lcase),
                    None => {},
                },
                EnvelopeKey::SenderDomain => match sender {
                    Some(a) => append_text(&mut input, &a.domain),
                    None => {},
                },
                EnvelopeKey::Mx => {},
                EnvelopeKey::AuthenticatedAs => append_text(&mut input, &self.data.authenticated_as),
                EnvelopeKey::HeloDomain => append_text(&mut input, &self.data.helo_domain),
                EnvelopeKey::Listener => append_dec(&mut input, self.listener_id as u64),
                EnvelopeKey::RemoteIp => append_ip_text(&mut input, &self.data.remote_ip),
                EnvelopeKey::LocalIp => append_ip_text(&mut input, &self.data.local_ip),
                EnvelopeKey::Priority => append_int(&mut input, self.data.priority),
            }
            proof {
                assert(input@ =~= key_input(self.data, self.listener_id, address_view(*sender), address_view(*rcpt), keys@.subrange(0, i as int))
                    + dimension(self.data, self.listener_id, address_view(*sender), address_view(*rcpt), keys@[i as int]));
            }
            i = i + 1;
        }
        proof {
            assert(keys@.subrange(0, keys@.len() as int) =~= keys@);
        }
        ThrottleKey::derive(input.as_slice())
    }

    /// Hands back the permits taken after the first `start`.
    fn release_from(&mut self, map: &mut ThrottleMap, start: usize)
        requires
            old(map).wf(),
            start <= old(self).in_flight.held@.len(),
        ensures
            final(map).wf(),
            final(map).shard_count() == old(map).shard_count(),
            final(self).in_flight.held@ == old(self).in_flight.held@.subrange(0, start as int),
            old(self).in_flight.held@.len() == start ==> *final(map) == *old(map),
            final(self).state == old(self).state,
            final(self).data == old(self).data,
            final(self).params == old(self).params,
            final(self).listener_id == old(self).listener_id,
    {
        while self.in_flight.held.len() > start
            invariant
                map.wf(),
                map.shard_count() == old(map).shard_count(),
                start <= self.in_flight.held@.len() <= old(self).in_flight.held@.len(),
                self.in_flight.held@ =~= old(self).in_flight.held@.subrange(0, self.in_flight.held@.len() as int),
                self.in_flight.held@.len() == old(self).in_flight.held@.len() ==> *map == *old(map),
                self.state == old(self).state,
                self.data == old(self).data,
                self.params == old(self).params,
                self.listener_id == old(self).listener_id,
            decreases self.in_flight.held@.len(),
        {
            match self.in_flight.held.pop() {
                Some(p) => map.release(p),
                None => {},
            }
        }
    }

    /// Hands back every permit of the transaction.
    pub fn release_all(&mut self, map: &mut ThrottleMap)
        requires
            old(map).wf(),
        ensures
            final(map).wf(),
            final(map).shard_count() == old(map).shard_count(),
            final(self).permits().len() == 0,
            final(self).state == old(self).state,
            final(self).data == old(self).data,
            final(self).params == old(self).params,
            final(self).listener_id == old(self).listener_id,
    {
        self.release_from(map, 0);
    }

    /// Consults every throttle of `stage`, with keys made for the given
    /// sender and recipient. All of them must admit; when one refuses, the
    /// permits taken so far are handed back.
    fn gate(
        &mut self,
        map: &mut ThrottleMap,
        stage: Stage,
        sender: &Option<SessionAddress>,
        rcpt: &Option<SessionAddress>,
        now: u64,
    ) -> (r: bool)
        requires
            old(map).wf(),
        ensures
            final(map).wf(),
            final(map).shard_count() == old(map).shard_count(),
            final(self).state == old(self).state,
            final(self).data == old(self).data,
            final(self).params == old(self).params,
            final(self).listener_id == old(self).listener_id,
            r ==> final(self).in_flight.held@.subrange(0, old(self).in_flight.held@.len() as int) == old(self).in_flight.held@,
            r ==> final(self).in_flight.held@.len() >= old(self).in_flight.held@.len(),
            !r ==> final(self).in_flight.held@ == old(self).in_flight.held@,
            !has_throttle(old(self).params, stage) ==> r && *final(map) == *old(map) && final(self).in_flight.held@ == old(self).in_flight.held@,
            sole_throttle(old(self).params, stage) ==> ({
                let t = old(self).params.throttle@[0];
                let k = throttle_key_of(old(self).data, old(self).listener_id, address_view(*sender), address_view(*rcpt), t);
                let m0 = start_model(*old(map), k, t.rule, now);
                &&& r == decision(m0, now).is_none()
                &&& final(map).model_of(k) == Some(model_after(m0, now))
            }),
    {
        let start = self.in_flight.held.len();
        let mut i: usize = 0;
        while i < self.params.throttle.len()
            invariant
                0 <= i <= self.params.throttle@.len(),
                map.wf(),
                map.shard_count() == old(map).shard_count(),
                start == old(self).in_flight.held@.len(),
                self.in_flight.held@.len() >= start,
                self.in_flight.held@.subrange(0, start as int) == old(self).in_flight.held@,
                self.state == old(self).state,
                self.data == old(self).data,
                self.params == old(self).params,
                self.listener_id == old(self).listener_id,
                (forall|j: int| 0 <= j < i ==> (#[trigger] self.params.throttle@[j]).stage != stage)
                    ==> *map == *old(map) && self.in_flight.held@ == old(self).in_flight.held@,
                sole_throttle(self.params, stage) && i == 1 ==> ({
                    let t = self.params.throttle@[0];
                    let k = throttle_key_of(self.data, self.listener_id, address_view(*sender), address_view(*rcpt), t);
                    let m0 = start_model(*old(map), k, t.rule, now);
                    &&& decision(m0, now).is_none()
                    &&& map.model_of(k) == Some(model_after(m0, now))
                }),
            decreases self.params.throttle@.len() - i,
        {
            let t = &self.params.throttle[i];
            if t.stage == stage {
                let key = self.throttle_key(&t.keys, sender, rcpt);
                match map.acquire(&key, &t.rule, now) {
                    Ok(Some(p)) => {
                        self.in_flight.held.push(p);
                        proof {
                            assert(self.in_flight.held@.subrange(0, start as int) =~= old(self).in_flight.held@);
                        }
                    },
                    Ok(None) => {},
                    Err(_) => {
                        self.release_from(map, start);
                        return false;
                    },
                }
            }
            i = i + 1;
        }
        true
    }

    /// A copy of the current sender.
    fn sender(&self) -> (r: Option<SessionAddress>)
        ensures
            r == self.data.mail_from,
    {
        match &self.data.mail_from {
            Some(a) => Some(a.duplicate()),
            None => None,
        }
    }

    fn clear_transaction(&mut self, map: &mut ThrottleMap)
        requires
            old(map).wf(),
        ensures
            final(map).wf(),
            final(map).shard_count() == old(map).shard_count(),
            final(self).permits().len() == 0,
            tx_cleared(final(self).data),
            keeps_connection(old(self).data, final(self).data),
            final(self).data.helo_domain == old(self).data.helo_domain,
            final(self).data.bytes_left == old(self).data.bytes_left,
            final(self).state == old(self).state,
            final(self).params == old(self).params,
            final(self).listener_id == old(self).listener_id,
    {
        self.release_all(map);
        self.data.mail_from = None;
        self.data.rcpt_to = Vec::new();
        self.data.message = Vec::new();
    }

    fn lists(&self, lcase: &String) -> (r: bool)
        ensures
            r == lists_address(self.data.rcpt_to@, lcase@),
    {
        let mut j: usize = 0;
        while j < self.data.rcpt_to.len()
            invariant
                0 <= j <= self.data.rcpt_to@.len(),
                forall|k: int| 0 <= k < j ==> (#[trigger] self.data.rcpt_to@[k]).address_lcase@ != lcase@,
            decreases self.data.rcpt_to@.len() - j,
        {
            if self.data.rcpt_to[j].address_lcase == *lcase {
                return true;
            }
            j = j + 1;
        }
        false
    }

    /// Handles one command. Each mutating command consults the limiter
    /// first; on refusal it fails with 451 4.4.5 and nothing else changes.
    pub fn handle_request(&mut self, req: Request, map: &mut ThrottleMap, now: u64) -> (r: Option<Reply>)
        requires
            old(self).state == State::Request,
            old(map).wf(),
        ensures
            final(map).wf(),
            final(map).shard_count() == old(map).shard_count(),
            final(self).params == old(self).params,
            final(self).listener_id == old(self).listener_id,
            ({
                let d = old(self).data;
                let p = old(self).params;
                let n = final(self).data;
                let same = final(self).state == State::Request && n == d;
                let refused = r == Some(plain(451, 4, 4, 5)) && same;
                match req {
                    Request::Ehlo { host } => {
                        &&& r == Some(plain(250, 2, 0, 0))
                        &&& final(self).state == State::Request
                        &&& n.helo_domain@ == host@
                        &&& tx_cleared(n)
                        &&& keeps_connection(d, n)
                        &&& final(self).permits().len() == 0
                    },
                    Request::Mail { from } => if p.ehlo_require && d.helo_domain@.len() == 0 {
                        r == Some(plain(503, 5, 5, 1)) && same
                    } else if p.auth_require && d.authenticated_as@.len() == 0 {
                        r == Some(plain(530, 5, 7, 0)) && same
                    } else if d.mail_from.is_some() {
                        r == Some(plain(503, 5, 5, 1)) && same
                    } else {
                        &&& refused || {
                            &&& r == Some(plain(250, 2, 1, 0))
                            &&& final(self).state == State::Request
                            &&& n.mail_from matches Some(a) && address_of(a, from@)
                            &&& n.rcpt_to == d.rcpt_to
                            &&& n.message == d.message
                            &&& n.helo_domain == d.helo_domain
                            &&& n.bytes_left == d.bytes_left
                            &&& keeps_connection(d, n)
                        }
                        &&& !has_throttle(p, Stage::Mail) ==> r == Some(plain(250, 2, 1, 0))
                        &&& sole_throttle(p, Stage::Mail) ==> ({
                            let t = p.throttle@[0];
                            let k = throttle_key_of(d, old(self).listener_id, Some(text_address_view(from@)), None, t);
                            let m0 = start_model(*old(map), k, t.rule, now);
                            &&& (r == Some(plain(250, 2, 1, 0))) == decision(m0, now).is_none()
                            &&& final(map).model_of(k) == Some(model_after(m0, now))
                        })
                    },
                    Request::Rcpt { to } => if d.mail_from.is_none() {
                        r == Some(plain(503, 5, 5, 1)) && same
                    } else if d.rcpt_to@.len() >= p.rcpt_max {
                        r == Some(plain(455, 4, 5, 3)) && same
                    } else if lists_address(d.rcpt_to@, lower_of(to@)) {
                        r == Some(plain(250, 2, 1, 5)) && same
                    } else {
                        &&& refused || {
                            &&& r == Some(plain(250, 2, 1, 5))
                            &&& final(self).state == State::Request
                            &&& n.rcpt_to@.len() == d.rcpt_to@.len() + 1
                            &&& n.rcpt_to@.drop_last() == d.rcpt_to@
                            &&& address_of(n.rcpt_to@.last(), to@)
                            &&& n.mail_from == d.mail_from
                            &&& n.message == d.message
                            &&& n.helo_domain == d.helo_domain
                            &&& n.bytes_left == d.bytes_left
                            &&& keeps_connection(d, n)
                        }
                        &&& !has_throttle(p, Stage::Rcpt) ==> r == Some(plain(250, 2, 1, 5))
                        &&& sole_throttle(p, Stage::Rcpt) ==> ({
                            let t = p.throttle@[0];
                            let k = throttle_key_of(
                                d,
                                old(self).listener_id,
                                address_view(d.mail_from),
                                Some(text_address_view(to@)),
                                t,
                            );
                            let m0 = start_model(*old(map), k, t.rule, now);
                            &&& (r == Some(plain(250, 2, 1, 5))) == decision(m0, now).is_none()
                            &&& final(map).model_of(k) == Some(model_after(m0, now))
                        })
                    },
                    Request::Data => if d.mail_from.is_none() || d.rcpt_to@.len() == 0 {
                        r == Some(plain(503, 5, 5, 1)) && same
                    } else {
                        &&& refused || {
                            &&& r == Some(plain(354, 0, 0, 0))
                            &&& final(self).state == (State::Data { matched: 2 })
                            &&& n.message@.len() == 0
                            &&& n.bytes_left == p.max_message_size
                            &&& n.mail_from == d.mail_from
                            &&& n.rcpt_to == d.rcpt_to
                            &&& n.helo_domain == d.helo_domain
                            &&& keeps_connection(d, n)
                        }
                        &&& !has_throttle(p, Stage::Data) ==> r == Some(plain(354, 0, 0, 0))
                    },
                    Request::Bdat { chunk_size, is_last } => {
                        &&& r.is_none()
                        &&& n == d
                        &&& if d.message@.len() + chunk_size > p.max_message_size {
                            final(self).state == State::DataTooLarge(Drain::Counted { remaining: chunk_size })
                        } else {
                            final(self).state == (State::Bdat { remaining: chunk_size, is_last })
                        }
                    },
                    Request::Auth => if d.authenticated_as@.len() > 0 {
                        r == Some(plain(503, 5, 5, 1)) && same
                    } else {
                        &&& refused || (r == Some(plain(334, 0, 0, 0)) && final(self).state == State::Sasl
                            && n == d)
                        &&& !has_throttle(p, Stage::Auth) ==> r == Some(plain(334, 0, 0, 0))
                    },
                    Request::Rset => {
                        &&& r == Some(plain(250, 2, 0, 0))
                        &&& final(self).state == State::Request
                        &&& tx_cleared(n)
                        &&& n.helo_domain == d.helo_domain
                        &&& keeps_connection(d, n)
                        &&& final(self).permits().len() == 0
                    },
                    Request::Noop => r == Some(plain(250, 2, 0, 0)) && same,
                    Request::Quit => {
                        &&& r == Some(Reply { code: 221, class: 2, subject: 0, detail: 0, action: Action::Disconnect })
                        &&& n == d
                        &&& final(self).permits().len() == 0
                    },
                }
            }),
    {
        match req {
            Request::Ehlo { host } => {
                self.clear_transaction(map);
                self.data.helo_domain = host;
                Some(reply(250, 2, 0, 0))
            },
            Request::Mail { from } => {
                if self.params.ehlo_require && self.data.helo_domain.as_str().is_empty() {
                    return Some(reply(503, 5, 5, 1));
                }
                if self.params.auth_require && self.data.authenticated_as.as_str().is_empty() {
                    return Some(reply(530, 5, 7, 0));
                }
                if self.data.mail_from.is_some() {
                    return Some(reply(503, 5, 5, 1));
                }
                let candidate = Some(SessionAddress::new(from));
                if !self.gate(map, Stage::Mail, &candidate, &None, now) {
                    return Some(reply(451, 4, 4, 5));
                }
                self.data.mail_from = candidate;
                Some(reply(250, 2, 1, 0))
            },
            Request::Rcpt { to } => {
                if self.data.mail_from.is_none() {
                    return Some(reply(503, 5, 5, 1));
                }
                if self.data.rcpt_to.len() >= self.params.rcpt_max {
                    return Some(reply(455, 4, 5, 3));
                }
                let addr = SessionAddress::new(to);
                if self.lists(&addr.address_lcase) {
                    return Some(reply(250, 2, 1, 5));
                }
                let sender = self.sender();
                let candidate = Some(addr);
                if !self.gate(map, Stage::Rcpt, &sender, &candidate, now) {
                    return Some(reply(451, 4, 4, 5));
                }
                match candidate {
                    Some(a) => self.data.rcpt_to.push(a),
                    None => {},
                }
                proof {
                    assert(self.data.rcpt_to@.drop_last() =~= old(self).data.rcpt_to@);
                }
                Some(reply(250, 2, 1, 5))
            },
            Request::Data => {
                if self.data.mail_from.is_none() || self.data.rcpt_to.len() == 0 {
                    return Some(reply(503, 5, 5, 1));
                }
                let sender = self.sender();
                if !self.gate(map, Stage::Data, &sender, &None, now) {
                    return Some(reply(451, 4, 4, 5));
                }
                self.data.message = Vec::new();
                self.data.bytes_left = self.params.max_message_size;
                self.state = State::Data { matched: 2 };
                Some(reply(354, 0, 0, 0))
            },
            Request::Bdat { chunk_size, is_last } => {
                let fits = chunk_size <= self.params.max_message_size
                    && self.data.message.len() <= self.params.max_message_size - chunk_size;
                if fits {
                    self.state = State::Bdat { remaining: chunk_size, is_last };
                } else {
                    self.state = State::DataTooLarge(Drain::Counted { remaining: chunk_size });
                }
                None
            },
            Request::Auth => {
                if !self.data.authenticated_as.as_str().is_empty() {
                    return Some(reply(503, 5, 5, 1));
                }
                if !self.gate(map, Stage::Auth, &None, &None, now) {
                    return Some(reply(451, 4, 4, 5));
                }
                self.state = State::Sasl;
                Some(reply(334, 0, 0, 0))
            },
            Request::Rset => {
                self.clear_transaction(map);
                Some(reply(250, 2, 0, 0))
            },
            Request::Noop => Some(reply(250, 2, 0, 0)),
            Request::Quit => {
                self.release_all(map);
                Some(Reply { code: 221, class: 2, subject: 0, detail: 0, action: Action::Disconnect })
            },
        }
    }

    /// Leaves a completed transaction: the accepted message has been handed
    /// on, so the envelope is cleared and its permits are returned.
    pub fn finish_transaction(&mut self, map: &mut ThrottleMap)
        requires
            old(self).state matches State::Accepted(_),
            old(map).wf(),
        ensures
            final(map).wf(),
            final(map).shard_count() == old(map).shard_count(),
            final(self).state == State::Request,
            tx_cleared(final(self).data),
            keeps_connection(old(self).data, final(self).data),
            final(self).data.helo_domain == old(self).data.helo_domain,
            final(self).params == old(self).params,
            final(self).permits().len() == 0,
    {
        self.clear_transaction(map);
        self.state = State::Request;
    }

    /// A command line grew past its limit: the rest of it is drained unread.
    pub fn request_too_large(&mut self)
        requires
            old(self).state == State::Request,
        ensures
            final(self).state == State::RequestTooLarge,
            final(self).data == old(self).data,
            final(self).params == old(self).params,
    {
        self.state = State::RequestTooLarge;
    }

    /// The outcome of an authentication exchange, as the directory judged the
    /// credentials: the identity on success. Every failure is counted; at the
    /// configured maximum the connection is dropped, before it the client is
    /// slowed down.
    pub fn auth_outcome(&mut self, identity: Option<String>) -> (r: Reply)
        requires
            old(self).state == State::Sasl,
        ensures
            final(self).state == State::Request,
            final(self).params == old(self).params,
            match identity {
                Some(id) => {
                    &&& r == plain(235, 2, 7, 0)
                    &&& final(self).data.authenticated_as@ == id@
                    &&& final(self).data.auth_errors == old(self).data.auth_errors
                },
                None => {
                    &&& final(self).data.authenticated_as == old(self).data.authenticated_as
                    &&& final(self).data.auth_errors == counted(old(self).data.auth_errors)
                    &&& r == if final(self).data.auth_errors >= old(self).params.auth_errors_max {
                        Reply { code: 455, class: 4, subject: 3, detail: 0, action: Action::Disconnect }
                    } else {
                        Reply {
                            code: 535,
                            class: 5,
                            subject: 7,
                            detail: 8,
                            action: Action::Delay(old(self).params.auth_errors_wait),
                        }
                    }
                },
            },
            final(self).data.rcpt_errors == old(self).data.rcpt_errors,
            final(self).data.mail_from == old(self).data.mail_from,
            final(self).data.rcpt_to == old(self).data.rcpt_to,
            final(self).data.message == old(self).data.message,
    {
        self.state = State::Request;
        match identity {
            Some(id) => {
                self.data.authenticated_as = id;
                reply(235, 2, 7, 0)
            },
            None => {
                self.data.auth_errors = count_one(self.data.auth_errors);
                if self.data.auth_errors >= self.params.auth_errors_max {
                    Reply { code: 455, class: 4, subject: 3, detail: 0, action: Action::Disconnect }
                } else {
                    Reply {
                        code: 535,
                        class: 5,
                        subject: 7,
                        detail: 8,
                        action: Action::Delay(self.params.auth_errors_wait),
                    }
                }
            },
        }
    }

    /// A recipient was refused (unknown to the directory, or relaying denied).
    /// The failure is counted; at the configured maximum the connection is
    /// dropped, before it the client is slowed down.
    pub fn rcpt_failure(&mut self) -> (r: Reply)
        requires
            old(self).state == State::Request,
        ensures
            final(self).state == State::Request,
            final(self).params == old(self).params,
            final(self).data.rcpt_errors == counted(old(self).data.rcpt_errors),
            final(self).data.rcpt_to == old(self).data.rcpt_to,
            final(self).data.mail_from == old(self).data.mail_from,
            final(self).data.auth_errors == old(self).data.auth_errors,
            r == if final(self).data.rcpt_errors >= old(self).params.rcpt_errors_max {
                Reply { code: 451, class: 4, subject: 3, detail: 0, action: Action::Disconnect }
            } else {
                Reply {
                    code: 550,
                    class: 5,
                    subject: 1,
                    detail: 2,
                    action: Action::Delay(old(self).params.rcpt_errors_wait),
                }
            },
    {
        self.data.rcpt_errors = count_one(self.data.rcpt_errors);
        if self.data.rcpt_errors >= self.params.rcpt_errors_max {
            Reply { code: 451, class: 4, subject: 3, detail: 0, action: Action::Disconnect }
        } else {
            Reply {
                code: 550,
                class: 5,
                subject: 1,
                detail: 2,
                action: Action::Delay(self.params.rcpt_errors_wait),
            }
        }
    }

    /// Feeds body bytes to a session that is receiving a chunk, a body, or
    /// draining an oversized unit. Returns how many bytes of `input` belong to
    /// the current unit and, when the unit ended, the reply to send. Bytes of
    /// an oversized unit are counted, never buffered.
    pub fn ingest(&mut self, input: &[u8], map: &mut ThrottleMap, now: u64) -> (r: (usize, Option<Reply>))
        requires
            old(self).in_transfer(),
            old(map).wf(),
        ensures
            final(map).wf(),
            final(map).shard_count() == old(map).shard_count(),
            final(self).params == old(self).params,
            final(self).listener_id == old(self).listener_id,
            r.0 <= input@.len(),
            ({
                let d = old(self).data;
                let n = final(self).data;
                let c = r.0 as int;
                let taken = input@.subrange(0, c);
                let oversize = Some(plain(552, 5, 3, 4));
                match old(self).state {
                    State::Bdat { remaining, is_last } => {
                        &&& c == counted_take(remaining as int, input@.len() as int)
                        &&& if c < remaining {
                            &&& r.1.is_none()
                            &&& final(self).state == (State::Bdat { remaining: (remaining - c) as usize, is_last })
                            &&& n.message@ == d.message@ + taken
                            &&& n.mail_from == d.mail_from
                            &&& n.rcpt_to == d.rcpt_to
                            &&& keeps_connection(d, n)
                        } else if d.mail_from.is_none() || d.rcpt_to@.len() == 0 {
                            &&& r.1 == Some(plain(503, 5, 5, 1))
                            &&& final(self).state == State::Request
                            &&& n.message@.len() == 0
                            &&& keeps_connection(d, n)
                        } else if !is_last {
                            &&& r.1 == Some(plain(250, 2, 6, 0))
                            &&& final(self).state == State::Request
                            &&& n.message@ == d.message@ + taken
                            &&& keeps_connection(d, n)
                        } else {
                            &&& {
                                ||| (r.1 == Some(plain(451, 4, 4, 5)) && final(self).state == State::Request
                                    && n.message@.len() == 0)
                                ||| accepted(d, n, final(self).state, r.1, d.message@ + taken)
                            }
                            &&& !has_throttle(old(self).params, Stage::Data) ==> accepted(
                                d,
                                n,
                                final(self).state,
                                r.1,
                                d.message@ + taken,
                            )
                        }
                    },
                    State::Data { matched } => {
                        let sc = scan(matched, input@);
                        &&& c == sc.0
                        &&& if !fits(d.message@.len() + c, old(self).params.max_message_size) {
                            &&& n.message@.len() == 0
                            &&& keeps_connection(d, n)
                            &&& if sc.1 == 5 {
                                &&& r.1 == oversize
                                &&& final(self).state == State::Request
                                &&& tx_cleared(n)
                                &&& final(self).permits().len() == 0
                            } else {
                                &&& r.1.is_none()
                                &&& final(self).state == State::DataTooLarge(Drain::Terminated { matched: sc.1 })
                            }
                        } else if sc.1 == 5 {
                            accepted(d, n, final(self).state, r.1, without_terminator(d.message@ + taken))
                        } else {
                            &&& r.1.is_none()
                            &&& final(self).state == (State::Data { matched: sc.1 })
                            &&& n.message@ == d.message@ + taken
                            &&& n.mail_from == d.mail_from
                            &&& n.rcpt_to == d.rcpt_to
                            &&& keeps_connection(d, n)
                        }
                    },
                    State::DataTooLarge(Drain::Counted { remaining }) => {
                        &&& c == counted_take(remaining as int, input@.len() as int)
                        &&& n.message == d.message || n.message@.len() == 0
                        &&& keeps_connection(d, n)
                        &&& if c < remaining {
                            &&& r.1.is_none()
                            &&& n == d
                            &&& final(self).state == State::DataTooLarge(
                                Drain::Counted { remaining: (remaining - c) as usize },
                            )
                        } else {
                            &&& r.1 == oversize
                            &&& final(self).state == State::Request
                            &&& tx_cleared(n)
                            &&& final(self).permits().len() == 0
                        }
                    },
                    State::DataTooLarge(Drain::Terminated { matched }) => {
                        let sc = scan(matched, input@);
                        &&& c == sc.0
                        &&& keeps_connection(d, n)
                        &&& if sc.1 == 5 {
                            &&& r.1 == oversize
                            &&& final(self).state == State::Request
                            &&& tx_cleared(n)
                            &&& final(self).permits().len() == 0
                        } else {
                            &&& r.1.is_none()
                            &&& n == d
                            &&& final(self).state == State::DataTooLarge(Drain::Terminated { matched: sc.1 })
                        }
                    },
                    _ => {
                        let le = line_end(input@);
                        &&& c == le.0
                        &&& n == d
                        &&& if le.1 {
                            &&& r.1 == Some(plain(554, 5, 3, 4))
                            &&& final(self).state == State::Request
                        } else {
                            &&& r.1.is_none()
                            &&& final(self).state == State::RequestTooLarge
                        }
                    },
                }
            }),
    {
        match self.state {
            State::Bdat { remaining, is_last } => {
                let c = if remaining < input.len() { remaining } else { input.len() };
                append_prefix(&mut self.data.message, input, c);
                if c < remaining {
                    self.state = State::Bdat { remaining: remaining - c, is_last };
                    return (c, None);
                }
                self.state = State::Request;
                if self.data.mail_from.is_none() || self.data.rcpt_to.len() == 0 {
                    self.data.message = Vec::new();
                    return (c, Some(reply(503, 5, 5, 1)));
                }
                if !is_last {
                    return (c, Some(reply(250, 2, 6, 0)));
                }
                let sender = self.sender();
                if !self.gate(map, Stage::Data, &sender, &None, now) {
                    self.data.message = Vec::new();
                    return (c, Some(reply(451, 4, 4, 5)));
                }
                (c, Some(self.accept()))
            },
            State::Data { matched } => {
                let (c, m) = scan_terminator(matched, input);
                let limit = self.params.max_message_size;
                let len = self.data.message.len();
                let ok = if len > limit {
                    len - limit <= 3 && c <= 3 - (len - limit)
                } else {
                    c <= limit - len || c - (limit - len) <= 3
                };
                if !ok {
                    self.data.message = Vec::new();
                    if m == 5 {
                        self.clear_transaction(map);
                        self.state = State::Request;
                        return (c, Some(reply(552, 5, 3, 4)));
                    }
                    self.state = State::DataTooLarge(Drain::Terminated { matched: m });
                    return (c, None);
                }
                append_prefix(&mut self.data.message, input, c);
                if m == 5 {
                    let total = self.data.message.len();
                    if total >= 3 {
                        self.data.message.truncate(total - 3);
                    } else {
                        self.data.message = Vec::new();
                    }
                    proof {
                        assert(self.data.message@ =~= without_terminator(
                            old(self).data.message@ + input@.subrange(0, c as int),
                        ));
                    }
                    self.state = State::Request;
                    return (c, Some(self.accept()));
                }
                self.state = State::Data { matched: m };
                (c, None)
            },
            State::DataTooLarge(Drain::Counted { remaining }) => {
                let c = if remaining < input.len() { remaining } else { input.len() };
                if c < remaining {
                    self.state = State::DataTooLarge(Drain::Counted { remaining: remaining - c });
                    return (c, None);
                }
                self.clear_transaction(map);
                self.state = State::Request;
                (c, Some(reply(552, 5, 3, 4)))
            },
            State::DataTooLarge(Drain::Terminated { matched }) => {
                let (c, m) = scan_terminator(matched, input);
                if m == 5 {
                    self.clear_transaction(map);
                    self.state = State::Request;
                    return (c, Some(reply(552, 5, 3, 4)));
                }
                self.state = State::DataTooLarge(Drain::Terminated { matched: m });
                (c, None)
            },
            _ => {
                let (c, found) = scan_line(input);
                if found {
                    self.state = State::Request;
                    return (c, Some(reply(554, 5, 3, 4)));
                }
                (c, None)
            },
        }
    }

    /// Records an accepted message.
    fn accept(&mut self) -> (r: Reply)
        ensures
            accepted(old(self).data, final(self).data, final(self).state, Some(r), old(self).data.message@),
            final(self).params == old(self).params,
            final(self).listener_id == old(self).listener_id,
            final(self).in_flight == old(self).in_flight,
    {
        self.data.messages_sent = count_one(self.data.messages_sent);
        self.state = State::Accepted(self.data.messages_sent as u64);
        reply(250, 2, 0, 0)
    }

    /// Whether body bytes, rather than command lines, are expected next.
    pub fn receiving(&self) -> (r: bool)
        ensures
            r == self.in_transfer(),
    {
        match self.state {
            State::Bdat { .. } | State::DataTooLarge(Drain::Counted { .. }) | State::RequestTooLarge => true,
            State::Data { matched } | State::DataTooLarge(Drain::Terminated { matched }) => matched < 5,
            _ => false,
        }
    }

    /// Whether the session is in the middle of a body, a chunk, or a drain.
    pub open spec fn in_transfer(&self) -> bool {
        match self.state {
            State::Bdat { .. } | State::DataTooLarge(Drain::Counted { .. }) | State::RequestTooLarge => true,
            State::Data { matched } | State::DataTooLarge(Drain::Terminated { matched }) => matched < 5,
            _ => false,
        }
    }
}

/// A counter after one more failure; it stops at its largest value.
pub open spec fn counted(n: usize) -> usize {
    if n < usize::MAX {
        (n + 1) as usize
    } else {
        n
    }
}

fn count_one(n: usize) -> (r: usize)
    ensures
        r == counted(n),
{
    if n < usize::MAX {
        n + 1
    } else {
        n
    }
}

/// The message `body` was accepted: it is kept with its envelope, and the
/// session reports the new message count as the id.
pub open spec fn accepted(d: SessionData, n: SessionData, st: State, r: Option<Reply>, body: Seq<u8>) -> bool {
    &&& r == Some(plain(250, 2, 0, 0))
    &&& n.messages_sent == counted(d.messages_sent)
    &&& st == State::Accepted(n.messages_sent as u64)
    &&& n.message@ == body
    &&& n.mail_from == d.mail_from
    &&& n.rcpt_to == d.rcpt_to
    &&& keeps_session(d, n)
}

/// How many of `len` available bytes a unit with `remaining` bytes takes.
pub open spec fn counted_take(remaining: int, len: int) -> int {
    if remaining < len {
        remaining
    } else {
        len
    }
}

/// Whether a body of `len` bytes, with the three-byte end-of-data mark still
/// in it, stays within `max` bytes.
pub open spec fn fits(len: int, max: usize) -> bool {
    len <= max + 3
}

/// A received body without its closing ".CRLF".
pub open spec fn without_terminator(b: Seq<u8>) -> Seq<u8> {
    if b.len() >= 3 {
        b.subrange(0, b.len() - 3)
    } else {
        Seq::empty()
    }
}

/// One step of recognising the end-of-data mark CR LF "." CR LF; the state
/// counts how much of it was just seen, five meaning all of it.
pub open spec fn term_next(m: u8, b: u8) -> u8 {
    if m == 0 {
        if b == 13 { 1 } else { 0 }
    } else if m == 1 {
        if b == 10 { 2 } else if b == 13 { 1 } else { 0 }
    } else if m == 2 {
        if b == 46 { 3 } else if b == 13 { 1 } else { 0 }
    } else if m == 3 {
        if b == 13 { 4 } else { 0 }
    } else {
        if b == 10 { 5 } else if b == 13 { 1 } else { 0 }
    }
}

/// Feeding `s` from state `m`: how many bytes are taken (up to and including
/// the end of the mark) and the state reached.
pub open spec fn scan(m: u8, s: Seq<u8>) -> (int, u8)
    decreases s.len(),
{
    if s.len() == 0 {
        (0, m)
    } else {
        let m2 = term_next(m, s[0]);
        if m2 == 5 {
            (1, 5)
        } else {
            let rest = scan(m2, s.drop_first());
            (rest.0 + 1, rest.1)
        }
    }
}

/// How many bytes of `s` reach the end of a line (its LF included), and
/// whether the line ended.
pub open spec fn line_end(s: Seq<u8>) -> (int, bool)
    decreases s.len(),
{
    if s.len() == 0 {
        (0, false)
    } else if s[0] == 10 {
        (1, true)
    } else {
        let rest = line_end(s.drop_first());
        (rest.0 + 1, rest.1)
    }
}

fn scan_terminator(m: u8, input: &[u8]) -> (r: (usize, u8))
    requires
        m < 5,
    ensures
        r.0 as int == scan(m, input@).0,
        r.1 == scan(m, input@).1,
        r.0 <= input@.len(),
{
    let mut i: usize = 0;
    let mut cur: u8 = m;
    proof {
        assert(input@.subrange(0, input@.len() as int) =~= input@);
    }
    while i < input.len()
        invariant
            0 <= i <= input@.len(),
            cur < 5,
            scan(m, input@) == (i + scan(cur, input@.subrange(i as int, input@.len() as int)).0, scan(
                cur,
                input@.subrange(i as int, input@.len() as int),
            ).1),
        decreases input@.len() - i,
    {
        let b = input[i];
        let next: u8 = if cur == 0 {
            if b == 13 { 1 } else { 0 }
        } else if cur == 1 {
            if b == 10 { 2 } else if b == 13 { 1 } else { 0 }
        } else if cur == 2 {
            if b == 46 { 3 } else if b == 13 { 1 } else { 0 }
        } else if cur == 3 {
            if b == 13 { 4 } else { 0 }
        } else {
            if b == 10 { 5 } else if b == 13 { 1 } else { 0 }
        };
        proof {
            let rest = input@.subrange(i as int, input@.len() as int);
            assert(rest[0] == b);
            assert(rest.drop_first() =~= input@.subrange(i + 1, input@.len() as int));
        }
        if next == 5 {
            return (i + 1, 5);
        }
        cur = next;
        i = i + 1;
    }
    proof {
        assert(input@.subrange(i as int, input@.len() as int) =~= Seq::<u8>::empty());
    }
    (i, cur)
}

fn scan_line(input: &[u8]) -> (r: (usize, bool))
    ensures
        r.0 as int == line_end(input@).0,
        r.1 == line_end(input@).1,
        r.0 <= input@.len(),
{
    let mut i: usize = 0;
    proof {
        assert(input@.subrange(0, input@.len() as int) =~= input@);
    }
    while i < input.len()
        invariant
            0 <= i <= input@.len(),
            line_end(input@) == (i + line_end(input@.subrange(i as int, input@.len() as int)).0, line_end(
                input@.subrange(i as int, input@.len() as int),
            ).1),
        decreases input@.len() - i,
    {
        proof {
            let rest = input@.subrange(i as int, input@.len() as int);
            assert(rest[0] == input@[i as int]);
            assert(rest.drop_first() =~= input@.subrange(i + 1, input@.len() as int));
        }
        if input[i] == 10 {
            return (i + 1, true);
        }
        i = i + 1;
    }
    proof {
        assert(input@.subrange(i as int, input@.len() as int) =~= Seq::<u8>::empty());
    }
    (i, false)
}

fn append_prefix(out: &mut Vec<u8>, input: &[u8], c: usize)
    requires
        c <= input@.len(),
    ensures
        final(out)@ == old(out)@ + input@.subrange(0, c as int),
{
    let mut i: usize = 0;
    while i < c
        invariant
            0 <= i <= c <= input@.len(),
            out@ =~= old(out)@ + input@.subrange(0, i as int),
        decreases c - i,
    {
        out.push(input[i]);
        i = i + 1;
    }
}

/// A drain of a declared length takes no byte past it, and all of it once
/// that many bytes are available.
pub proof fn lemma_counted_drain_is_exact(remaining: int, len: int)
    requires
        remaining >= 0,
        len >= 0,
    ensures
        counted_take(remaining, len) <= remaining,
        counted_take(remaining, len) <= len,
        counted_take(remaining, len) == remaining <==> len >= remaining,
{
}

/// When the end-of-data mark is found, exactly the bytes up to and including
/// its final LF are taken; bytes after it are left alone.
pub proof fn lemma_scan_stops_at_mark(m: u8, s: Seq<u8>, extra: Seq<u8>)
    requires
        m < 5,
        scan(m, s).1 == 5,
    ensures
        1 <= scan(m, s).0 <= s.len(),
        s[scan(m, s).0 - 1] == 10,
        scan(m, s + extra) == scan(m, s),
    decreases s.len(),
{
    let m2 = term_next(m, s[0]);
    if m2 != 5 {
        lemma_scan_stops_at_mark(m2, s.drop_first(), extra);
        assert((s + extra).drop_first() =~= s.drop_first() + extra);
        assert(s.drop_first()[scan(m2, s.drop_first()).0 - 1] == s[scan(m, s).0 - 1]);
    } else {
        assert((s + extra)[0] == s[0]);
    }
}

/// While no mark is found, every byte is taken.
pub proof fn lemma_scan_takes_all_without_mark(m: u8, s: Seq<u8>)
    requires
        m < 5,
        scan(m, s).1 != 5,
    ensures
        scan(m, s).0 == s.len(),
        scan(m, s).1 < 5,
    decreases s.len(),
{
    if s.len() > 0 {
        let m2 = term_next(m, s[0]);
        lemma_scan_takes_all_without_mark(m2, s.drop_first());
    }
}

/// The name of a text without its leading and trailing white space.
pub uninterp spec fn trim_of(s: Seq<char>) -> Seq<char>;

/// Relies on str::trim: the text without leading and trailing white space;
/// the result depends on the characters alone.
#[verifier::external_body]
fn trimmed(s: &str) -> (r: String)
    ensures
        r@ == trim_of(s@),
{
    s.trim().to_string()
}

/// The text of a reply line: its code, then its enhanced status code when
/// it has one, then CRLF.
pub open spec fn reply_text(r: Reply) -> Seq<u8> {
    if r.class == 0 {
        dec_text(r.code as nat) + seq![13u8, 10u8]
    } else {
        dec_text(r.code as nat).push(32) + dec_text(r.class as nat).push(46) + dec_text(
            r.subject as nat,
        ).push(46) + dec_text(r.detail as nat) + seq![13u8, 10u8]
    }
}

/// The text of a reply line.
pub fn render_reply(r: &Reply) -> (out: Vec<u8>)
    ensures
        out@ == reply_text(*r),
{
    let mut out: Vec<u8> = Vec::new();
    append_dec(&mut out, r.code as u64);
    if r.class != 0 {
        out.push(32);
        append_dec(&mut out, r.class as u64);
        out.push(46);
        append_dec(&mut out, r.subject as u64);
        out.push(46);
        append_dec(&mut out, r.detail as u64);
    }
    out.push(13);
    out.push(10);
    proof {
        assert(out@ =~= reply_text(*r));
    }
    out
}

/// A three-digit reply begins with the digit of its class, so a reply line
/// counts as positive for `NullIo::has_failed` exactly when its code is 2xx.
pub proof fn lemma_reply_class_digit(r: Reply)
    requires
        100 <= r.code <= 999,
    ensures
        reply_text(r).len() > 0,
        reply_text(r)[0] == 48 + r.code / 100,
        (reply_text(r)[0] == 50) == (200 <= r.code < 300),
{
    let n = r.code as nat;
    reveal_with_fuel(dec_text, 3);
    assert(dec_text(n / 100) == seq![(48 + n / 100) as u8]);
    assert(dec_text(n / 10) == dec_text(n / 100).push((48 + (n / 10) % 10) as u8));
    assert(dec_text(n) == dec_text(n / 10).push((48 + n % 10) as u8));
    assert(dec_text(n)[0] == 48 + n / 100);
    let t = reply_text(r);
    if r.class == 0 {
        assert(t[0] == dec_text(n)[0]);
    } else {
        assert(t[0] == dec_text(n)[0]);
    }
}

/// The output side of a local session: replies are collected, not sent.
#[derive(Debug, Default)]
pub struct NullIo {
    pub tx_buf: Vec<u8>,
}

impl NullIo {
    /// Collects written bytes; everything is always written.
    pub fn write(&mut self, buf: &[u8]) -> (r: usize)
        ensures
            final(self).tx_buf@ == old(self).tx_buf@ + buf@,
            r == buf@.len(),
    {
        append_bytes(&mut self.tx_buf, buf);
        buf.len()
    }

    /// Writes a reply line.
    pub fn write_reply(&mut self, r: &Reply)
        ensures
            final(self).tx_buf@ == old(self).tx_buf@ + reply_text(*r),
    {
        let line = render_reply(r);
        self.write(line.as_slice());
    }

    /// A local session counts as encrypted.
    pub fn is_tls(&self) -> (r: bool)
        ensures
            r,
    {
        true
    }

    /// Whether the collected replies report a failure: anything but a
    /// positive (2xx) reply is returned as trimmed text. The buffer is emptied.
    pub fn has_failed(&mut self) -> (r: Option<String>)
        ensures
            final(self).tx_buf@.len() == 0,
            r.is_none() <==> (old(self).tx_buf@.len() == 0 || old(self).tx_buf@[0] == 50),
            r matches Some(t) ==> t@ == trim_of(crate::account::lossy_of(old(self).tx_buf@)),
    {
        let positive = self.tx_buf.len() == 0 || self.tx_buf[0] == 50;
        if positive {
            self.tx_buf = Vec::new();
            None
        } else {
            let text = crate::account::utf8_lossy(self.tx_buf.as_slice());
            let response = trimmed(text.as_str());
            self.tx_buf = Vec::new();
            Some(response)
        }
    }
}

} // verus!
