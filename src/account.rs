//! Identifiers of cached account objects and the weights charged for them.

use crate::cache::CacheKey;
use std::collections::HashMap;
use vstd::std_specs::hash::spec_hash_map_len;
use vstd::prelude::*;

verus! {

/// An account seen through a primary account.
#[derive(Debug, PartialEq, Eq, Hash, Clone, Copy)]
pub struct AccountId {
    pub account_id: u32,
    pub primary_id: u32,
}

/// A mailbox of an account.
#[derive(Debug, PartialEq, Eq, Hash, Clone, Copy)]
pub struct MailboxId {
    pub account_id: u32,
    pub mailbox_id: u32,
}

/// The IMAP identity of a message: its UID and sequence number.
#[derive(Debug, Clone, Copy, Default)]
pub struct ImapId {
    pub uid: u32,
    pub seqnum: u32,
}

/// A cached HTTP authentication: the account and the revision it was made at.
#[derive(Debug, Clone, Default)]
pub struct HttpAuthCache {
    pub account_id: u32,
    pub revision: u64,
}

impl View for AccountId {
    type V = (u32, u32);

    open spec fn view(&self) -> (u32, u32) {
        (self.account_id, self.primary_id)
    }
}

impl View for MailboxId {
    type V = (u32, u32);

    open spec fn view(&self) -> (u32, u32) {
        (self.account_id, self.mailbox_id)
    }
}

impl CacheKey for AccountId {
    fn same_key(&self, other: &Self) -> (r: bool) {
        self.account_id == other.account_id && self.primary_id == other.primary_id
    }

    fn copy_key(&self) -> (r: Self) {
        AccountId { account_id: self.account_id, primary_id: self.primary_id }
    }
}

impl CacheKey for MailboxId {
    fn same_key(&self, other: &Self) -> (r: bool) {
        self.account_id == other.account_id && self.mailbox_id == other.mailbox_id
    }

    fn copy_key(&self) -> (r: Self) {
        MailboxId { account_id: self.account_id, mailbox_id: self.mailbox_id }
    }
}

impl AccountId {
    /// The weight charged for caching this key: its size in memory.
    pub fn weight(&self) -> (r: u64)
        ensures
            r == core::mem::size_of::<AccountId>() as u64,
    {
        core::mem::size_of::<AccountId>() as u64
    }
}

impl MailboxId {
    /// The weight charged for caching this key: its size in memory.
    pub fn weight(&self) -> (r: u64)
        ensures
            r == core::mem::size_of::<MailboxId>() as u64,
    {
        core::mem::size_of::<MailboxId>() as u64
    }
}

impl HttpAuthCache {
    /// The weight charged for caching this value: its size in memory.
    pub fn weight(&self) -> (r: u64)
        ensures
            r == core::mem::size_of::<HttpAuthCache>() as u64,
    {
        core::mem::size_of::<HttpAuthCache>() as u64
    }
}

/// The IMAP view of a mailbox: UID assignments, and the state that follows
/// pending deletions, if any.
#[derive(Debug)]
pub struct MailboxState {
    pub uid_next: u32,
    pub uid_validity: u32,
    pub uid_max: u32,
    pub id_to_imap: HashMap<u32, ImapId>,
    pub uid_to_id: HashMap<u32, u32>,
    pub total_messages: usize,
    pub modseq: Option<u64>,
    pub next_state: Option<Box<NextMailboxState>>,
    pub obj_size: u64,
}

/// A mailbox state reached after removing `deletions`.
#[derive(Debug)]
pub struct NextMailboxState {
    pub next_state: MailboxState,
    pub deletions: Vec<ImapId>,
}

/// The thread of each message of a mailbox.
#[derive(Debug)]
pub struct Threads {
    pub threads: HashMap<u32, u32>,
    pub modseq: Option<u64>,
}

/// The memory a mailbox state takes: its own size, an entry per UID mapping,
/// and the same again for each state that follows.
pub open spec fn mailbox_weight(s: MailboxState) -> int
    decreases s,
{
    core::mem::size_of::<MailboxState>() as int + spec_hash_map_len(&s.id_to_imap) as int
        * core::mem::size_of::<ImapId>() as int + core::mem::size_of::<u32>() as int
        + spec_hash_map_len(&s.uid_to_id) as int * core::mem::size_of::<u64>() as int
        + match s.next_state {
        Some(n) => core::mem::size_of::<NextMailboxState>() as int + n.deletions@.len()
            * core::mem::size_of::<ImapId>() as int + mailbox_weight(n.next_state),
        None => 0,
    }
}

proof fn lemma_mailbox_weight_nonneg(s: MailboxState)
    ensures
        mailbox_weight(s) >= 0,
    decreases s,
{
    match s.next_state {
        Some(n) => lemma_mailbox_weight_nonneg(n.next_state),
        None => {},
    }
}

impl MailboxState {
    /// The weight charged for caching this state: the size recorded with it.
    pub fn weight(&self) -> (r: u64)
        ensures
            r == self.obj_size,
    {
        self.obj_size
    }

    /// The memory this state takes.
    pub fn calculate_weight(&self) -> (r: u64)
        requires
            mailbox_weight(*self) <= u64::MAX,
        ensures
            r == mailbox_weight(*self),
        decreases *self,
    {
        let a = core::mem::size_of::<MailboxState>() as u64;
        let b = self.id_to_imap.len() as u64;
        let c = core::mem::size_of::<ImapId>() as u64;
        let d = core::mem::size_of::<u32>() as u64;
        let e = self.uid_to_id.len() as u64;
        let f = core::mem::size_of::<u64>() as u64;
        proof {
            if self.next_state is Some {
                lemma_mailbox_weight_nonneg(self.next_state->0.next_state);
            }
            assert(0 <= b * c && 0 <= e * f) by (nonlinear_arith)
                requires b >= 0, c >= 0, e >= 0, f >= 0;
        }
        let next: u64 = match &self.next_state {
            Some(n) => {
                let g = core::mem::size_of::<NextMailboxState>() as u64;
                let h = n.deletions.len() as u64;
                proof {
                    assert(0 <= h * c) by (nonlinear_arith)
                        requires h >= 0, c >= 0;
                }
                let inner = n.next_state.calculate_weight();
                g + h * c + inner
            },
            None => 0,
        };
        a + b * c + d + e * f + next
    }
}

impl Threads {
    /// The weight charged for caching these threads: room for each entry
    /// and two more, at the size of the whole.
    pub fn weight(&self) -> (r: u64)
        requires
            spec_hash_map_len(&self.threads) + 2 <= u64::MAX,
            (spec_hash_map_len(&self.threads) + 2) * core::mem::size_of::<Threads>() <= u64::MAX,
        ensures
            r == (spec_hash_map_len(&self.threads) + 2) * core::mem::size_of::<Threads>(),
    {
        let n = self.threads.len() as u64 + 2;
        let size = core::mem::size_of::<Threads>() as u64;
        proof {
            assert(n as int == spec_hash_map_len(&self.threads) + 2);
            assert(size as int == core::mem::size_of::<Threads>() as int);
        }
        n * size
    }
}

/// The name of the text that `String::from_utf8_lossy` makes of some bytes.
pub uninterp spec fn lossy_of(b: Seq<u8>) -> Seq<char>;

/// Relies on String::from_utf8_lossy: bytes that are valid UTF-8 are kept as
/// they are; other sequences become replacement characters.
#[verifier::external_body]
pub(crate) fn utf8_lossy(b: &[u8]) -> (r: String)
    ensures
        r@ == lossy_of(b@),
        vstd::utf8::valid_utf8(b@) ==> vstd::utf8::encode_utf8(r@) == b@,
{
    String::from_utf8_lossy(b).into_owned()
}

/// Turns owned bytes into text.
pub trait IntoString: Sized {
    spec fn bytes_of(&self) -> Seq<u8>;

    fn into_string(self) -> (r: String)
        ensures
            r@ == lossy_of(self.bytes_of());
}

impl IntoString for Vec<u8> {
    open spec fn bytes_of(&self) -> Seq<u8> {
        self@
    }

    /// Valid UTF-8 is taken as it is; anything else is decoded lossily.
    fn into_string(self) -> (r: String) {
        utf8_lossy(self.as_slice())
    }
}

} // verus!
