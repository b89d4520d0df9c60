//! Variable resolution for filter expressions: each resolver answers a
//! numbered variable, or a global name, with a value. The spam-filter
//! resolver projects the context of the message under evaluation.

use vstd::prelude::*;
use vstd::string::StringExecFns;

verus! {

/// The value of a variable.
#[derive(Debug)]
pub enum Variable {
    String(String),
    Integer(i64),
    Array(Vec<String>),
}

/// The characters of each string of a list.
pub open spec fn texts(v: Seq<String>) -> Seq<Seq<char>> {
    v.map_values(|s: String| s@)
}

/// `r` is the text `t`.
pub open spec fn is_text(r: Variable, t: Seq<char>) -> bool {
    r matches Variable::String(s) && s@ == t
}

/// `r` is the list of texts `l`, in order.
pub open spec fn is_list(r: Variable, l: Seq<Seq<char>>) -> bool {
    r matches Variable::Array(a) && texts(a@) == l
}

/// Something that gives values to the variables of an expression.
pub trait ResolveVariable {
    /// Whether `r` is this resolver's value of `variable`.
    spec fn resolves_to(&self, variable: u32, r: Variable) -> bool;

    /// Whether `r` is this resolver's value of the global name `name`.
    spec fn global_is(&self, name: Seq<char>, r: Variable) -> bool;

    fn resolve_variable(&self, variable: u32) -> (r: Variable)
        ensures
            self.resolves_to(variable, r);

    fn resolve_global(&self, name: &str) -> (r: Variable)
        ensures
            self.global_is(name@, r);
}

/// Every variable is the one string; globals are zero.
pub struct StringResolver<'x>(pub &'x str);

impl<'x> ResolveVariable for StringResolver<'x> {
    open spec fn resolves_to(&self, variable: u32, r: Variable) -> bool {
        is_text(r, self.0@)
    }

    open spec fn global_is(&self, name: Seq<char>, r: Variable) -> bool {
        r == Variable::Integer(0)
    }

    fn resolve_variable(&self, variable: u32) -> (r: Variable) {
        Variable::String(self.0.to_owned())
    }

    fn resolve_global(&self, name: &str) -> (r: Variable) {
        Variable::Integer(0)
    }
}

/// A copy of a list of strings.
fn copy_texts(list: &[String]) -> (r: Vec<String>)
    ensures
        r@ == list@,
{
    let mut out: Vec<String> = Vec::new();
    let mut i: usize = 0;
    while i < list.len()
        invariant
            0 <= i <= list@.len(),
            out@ =~= list@.subrange(0, i as int),
        decreases list@.len() - i,
    {
        out.push(list[i].clone());
        i = i + 1;
    }
    proof {
        assert(list@.subrange(0, list@.len() as int) =~= list@);
    }
    out
}

/// Every variable is the one list of strings; globals are zero.
pub struct StringListResolver<'x>(pub &'x [String]);

impl<'x> ResolveVariable for StringListResolver<'x> {
    open spec fn resolves_to(&self, variable: u32, r: Variable) -> bool {
        r matches Variable::Array(a) && a@ == self.0@
    }

    open spec fn global_is(&self, name: Seq<char>, r: Variable) -> bool {
        r == Variable::Integer(0)
    }

    fn resolve_variable(&self, variable: u32) -> (r: Variable) {
        Variable::Array(copy_texts(self.0))
    }

    fn resolve_global(&self, name: &str) -> (r: Variable) {
        Variable::Integer(0)
    }
}

/// Where in a message the item under evaluation was found.
#[derive(Debug, Clone, Copy, PartialEq, Eq, Structural)]
pub enum Location {
    EnvelopeFrom,
    EnvelopeTo,
    HeaderFrom,
    HeaderReplyTo,
    HeaderTo,
    HeaderCc,
    HeaderBcc,
    HeaderSubject,
    Ehlo,
    BodyText,
    BodyHtml,
    Attachment,
}

/// The name of a location.
pub open spec fn location_name(l: Location) -> Seq<char> {
    match l {
        Location::EnvelopeFrom => "env_from"@,
        Location::EnvelopeTo => "env_to"@,
        Location::HeaderFrom => "from"@,
        Location::HeaderReplyTo => "reply_to"@,
        Location::HeaderTo => "to"@,
        Location::HeaderCc => "cc"@,
        Location::HeaderBcc => "bcc"@,
        Location::HeaderSubject => "subject"@,
        Location::Ehlo => "ehlo"@,
        Location::BodyText => "body_text"@,
        Location::BodyHtml => "body_html"@,
        Location::Attachment => "attachment"@,
    }
}

impl Location {
    pub fn as_str(&self) -> (r: &'static str)
        ensures
            r@ == location_name(*self),
    {
        match self {
            Location::EnvelopeFrom => "env_from",
            Location::EnvelopeTo => "env_to",
            Location::HeaderFrom => "from",
            Location::HeaderReplyTo => "reply_to",
            Location::HeaderTo => "to",
            Location::HeaderCc => "cc",
            Location::HeaderBcc => "bcc",
            Location::HeaderSubject => "subject",
            Location::Ehlo => "ehlo",
            Location::BodyText => "body_text",
            Location::BodyHtml => "body_html",
            Location::Attachment => "attachment",
        }
    }
}

/// An e-mail address with its parts.
#[derive(Debug)]
pub struct EmailAddress {
    pub address: String,
    pub local_part: String,
    pub domain: String,
}

/// An address of a header, with its display name if any.
#[derive(Debug)]
pub struct NamedAddress {
    pub name: Option<String>,
    pub email: EmailAddress,
}

/// What the spam filter knows of the message under evaluation, as plain values.
#[derive(Debug)]
pub struct SpamFilterContext {
    pub remote_ip: String,
    pub iprev_ptr: Option<String>,
    pub ehlo_domain: String,
    pub authenticated_as: Option<String>,
    pub asn: Option<u32>,
    pub country: Option<String>,
    pub is_tls: bool,
    pub env_from: EmailAddress,
    pub env_to: Vec<EmailAddress>,
    pub from: NamedAddress,
    pub reply_to: Option<NamedAddress>,
    pub recipients_to: Vec<NamedAddress>,
    pub recipients_cc: Vec<NamedAddress>,
    pub recipients_bcc: Vec<NamedAddress>,
    pub text_body: Option<String>,
    pub subject: String,
    pub subject_thread: String,
    pub tags: Vec<String>,
}

/// Variables below this number belong to the item under evaluation.
pub const ITEM_VARIABLES: u32 = 100;
pub const V_SPAM_REMOTE_IP: u32 = 100;
pub const V_SPAM_REMOTE_IP_PTR: u32 = 101;
pub const V_SPAM_EHLO_DOMAIN: u32 = 102;
pub const V_SPAM_AUTH_AS: u32 = 103;
pub const V_SPAM_ASN: u32 = 104;
pub const V_SPAM_COUNTRY: u32 = 105;
pub const V_SPAM_IS_TLS: u32 = 106;
pub const V_SPAM_ENV_FROM: u32 = 107;
pub const V_SPAM_ENV_FROM_LOCAL: u32 = 108;
pub const V_SPAM_ENV_FROM_DOMAIN: u32 = 109;
pub const V_SPAM_ENV_TO: u32 = 110;
pub const V_SPAM_FROM: u32 = 111;
pub const V_SPAM_FROM_NAME: u32 = 112;
pub const V_SPAM_FROM_LOCAL: u32 = 113;
pub const V_SPAM_FROM_DOMAIN: u32 = 114;
pub const V_SPAM_REPLY_TO: u32 = 115;
pub const V_SPAM_REPLY_TO_NAME: u32 = 116;
pub const V_SPAM_REPLY_TO_LOCAL: u32 = 117;
pub const V_SPAM_REPLY_TO_DOMAIN: u32 = 118;
pub const V_SPAM_TO: u32 = 119;
pub const V_SPAM_TO_NAME: u32 = 120;
pub const V_SPAM_TO_LOCAL: u32 = 121;
pub const V_SPAM_TO_DOMAIN: u32 = 122;
pub const V_SPAM_CC: u32 = 123;
pub const V_SPAM_CC_NAME: u32 = 124;
pub const V_SPAM_CC_LOCAL: u32 = 125;
pub const V_SPAM_CC_DOMAIN: u32 = 126;
pub const V_SPAM_BCC: u32 = 127;
pub const V_SPAM_BCC_NAME: u32 = 128;
pub const V_SPAM_BCC_LOCAL: u32 = 129;
pub const V_SPAM_BCC_DOMAIN: u32 = 130;
pub const V_SPAM_BODY_TEXT: u32 = 131;
pub const V_SPAM_SUBJECT: u32 = 132;
pub const V_SPAM_SUBJECT_THREAD: u32 = 133;
pub const V_SPAM_LOCATION: u32 = 134;

/// Which part of a header address a list variable takes.
#[derive(Debug, Clone, Copy, PartialEq, Eq, Structural)]
pub enum AddressPart {
    Address,
    Name,
    Local,
    Domain,
}

/// The part of one header address; a missing name gives nothing.
pub open spec fn part_of(a: NamedAddress, p: AddressPart) -> Option<Seq<char>> {
    match p {
        AddressPart::Address => Some(a.email.address@),
        AddressPart::Name => match a.name {
            Some(n) => Some(n@),
            None => None,
        },
        AddressPart::Local => Some(a.email.local_part@),
        AddressPart::Domain => Some(a.email.domain@),
    }
}

/// The parts of a list of header addresses, in order, leaving out those
/// that are missing.
pub open spec fn parts_of(s: Seq<NamedAddress>, p: AddressPart) -> Seq<Seq<char>>
    decreases s.len(),
{
    if s.len() == 0 {
        Seq::empty()
    } else {
        let prefix = parts_of(s.drop_last(), p);
        match part_of(s.last(), p) {
            Some(t) => prefix.push(t),
            None => prefix,
        }
    }
}

/// The text of an optional string, or nothing.
pub open spec fn or_empty(o: Option<String>) -> Seq<char> {
    match o {
        Some(s) => s@,
        None => Seq::empty(),
    }
}

/// The part of an optional header address, or nothing.
pub open spec fn opt_part(a: Option<NamedAddress>, p: AddressPart) -> Seq<char> {
    match a {
        Some(x) => match part_of(x, p) {
            Some(t) => t,
            None => Seq::empty(),
        },
        None => Seq::empty(),
    }
}

/// The value of a context variable (100 and up).
pub open spec fn context_value(c: SpamFilterContext, loc: Location, v: u32, r: Variable) -> bool {
    if v == V_SPAM_REMOTE_IP {
        is_text(r, c.remote_ip@)
    } else if v == V_SPAM_REMOTE_IP_PTR {
        is_text(r, or_empty(c.iprev_ptr))
    } else if v == V_SPAM_EHLO_DOMAIN {
        is_text(r, c.ehlo_domain@)
    } else if v == V_SPAM_AUTH_AS {
        is_text(r, or_empty(c.authenticated_as))
    } else if v == V_SPAM_ASN {
        r == Variable::Integer(
            match c.asn {
                Some(n) => n as i64,
                None => 0,
            },
        )
    } else if v == V_SPAM_COUNTRY {
        is_text(r, or_empty(c.country))
    } else if v == V_SPAM_IS_TLS {
        r == Variable::Integer(if c.is_tls { 1 } else { 0 })
    } else if v == V_SPAM_ENV_FROM {
        is_text(r, c.env_from.address@)
    } else if v == V_SPAM_ENV_FROM_LOCAL {
        is_text(r, c.env_from.local_part@)
    } else if v == V_SPAM_ENV_FROM_DOMAIN {
        is_text(r, c.env_from.domain@)
    } else if v == V_SPAM_ENV_TO {
        is_list(r, c.env_to@.map_values(|e: EmailAddress| e.address@))
    } else if v == V_SPAM_FROM {
        is_text(r, c.from.email.address@)
    } else if v == V_SPAM_FROM_NAME {
        is_text(r, or_empty(c.from.name))
    } else if v == V_SPAM_FROM_LOCAL {
        is_text(r, c.from.email.local_part@)
    } else if v == V_SPAM_FROM_DOMAIN {
        is_text(r, c.from.email.domain@)
    } else if v == V_SPAM_REPLY_TO {
        is_text(r, opt_part(c.reply_to, AddressPart::Address))
    } else if v == V_SPAM_REPLY_TO_NAME {
        is_text(r, opt_part(c.reply_to, AddressPart::Name))
    } else if v == V_SPAM_REPLY_TO_LOCAL {
        is_text(r, opt_part(c.reply_to, AddressPart::Local))
    } else if v == V_SPAM_REPLY_TO_DOMAIN {
        is_text(r, opt_part(c.reply_to, AddressPart::Domain))
    } else if V_SPAM_TO <= v <= V_SPAM_BCC_DOMAIN {
        let list = if v < V_SPAM_CC {
            c.recipients_to
        } else if v < V_SPAM_BCC {
            c.recipients_cc
        } else {
            c.recipients_bcc
        };
        is_list(r, parts_of(list@, list_part(v)))
    } else if v == V_SPAM_BODY_TEXT {
        is_text(r, or_empty(c.text_body))
    } else if v == V_SPAM_SUBJECT {
        is_text(r, c.subject@)
    } else if v == V_SPAM_SUBJECT_THREAD {
        is_text(r, c.subject_thread@)
    } else if v == V_SPAM_LOCATION {
        is_text(r, location_name(loc))
    } else {
        r == Variable::Integer(0)
    }
}

/// Which part a recipient-list variable takes: address, name, local part,
/// domain, in that order within each list.
pub open spec fn list_part(v: u32) -> AddressPart {
    let k = (v - V_SPAM_TO) % 4;
    if k == 0 {
        AddressPart::Address
    } else if k == 1 {
        AddressPart::Name
    } else if k == 2 {
        AddressPart::Local
    } else {
        AddressPart::Domain
    }
}

fn text(o: &Option<String>) -> (r: String)
    ensures
        r@ == or_empty(*o),
{
    match o {
        Some(s) => s.clone(),
        None => String::new(),
    }
}

fn part(a: &NamedAddress, p: AddressPart) -> (r: Option<String>)
    ensures
        match part_of(*a, p) {
            Some(t) => r matches Some(s) && s@ == t,
            None => r.is_none(),
        },
{
    match p {
        AddressPart::Address => Some(a.email.address.clone()),
        AddressPart::Name => match &a.name {
            Some(n) => Some(n.clone()),
            None => None,
        },
        AddressPart::Local => Some(a.email.local_part.clone()),
        AddressPart::Domain => Some(a.email.domain.clone()),
    }
}

fn opt_text(a: &Option<NamedAddress>, p: AddressPart) -> (r: String)
    ensures
        r@ == opt_part(*a, p),
{
    match a {
        Some(x) => match part(x, p) {
            Some(t) => t,
            None => String::new(),
        },
        None => String::new(),
    }
}

fn collect_parts(list: &Vec<NamedAddress>, p: AddressPart) -> (r: Vec<String>)
    ensures
        texts(r@) == parts_of(list@, p),
{
    let mut out: Vec<String> = Vec::new();
    let mut i: usize = 0;
    while i < list.len()
        invariant
            0 <= i <= list@.len(),
            texts(out@) =~= parts_of(list@.subrange(0, i as int), p),
        decreases list@.len() - i,
    {
        proof {
            assert(list@.subrange(0, i + 1).drop_last() =~= list@.subrange(0, i as int));
            assert(list@.subrange(0, i + 1).last() == list@[i as int]);
        }
        match part(&list[i], p) {
            Some(t) => {
                let ghost before = out@;
                out.push(t);
                proof {
                    assert(out@ =~= before.push(t));
                    assert(texts(out@) =~= texts(before).push(t@));
                }
            },
            None => {},
        }
        i = i + 1;
    }
    proof {
        assert(list@.subrange(0, list@.len() as int) =~= list@);
    }
    out
}

fn collect_addresses(list: &Vec<EmailAddress>) -> (r: Vec<String>)
    ensures
        texts(r@) == list@.map_values(|e: EmailAddress| e.address@),
{
    let mut out: Vec<String> = Vec::new();
    let mut i: usize = 0;
    while i < list.len()
        invariant
            0 <= i <= list@.len(),
            texts(out@) =~= list@.subrange(0, i as int).map_values(|e: EmailAddress| e.address@),
        decreases list@.len() - i,
    {
        let ghost before = out@;
        out.push(list[i].address.clone());
        proof {
            assert(out@ =~= before.push(list@[i as int].address));
            assert(texts(out@) =~= texts(before).push(list@[i as int].address@));
        }
        i = i + 1;
    }
    proof {
        assert(list@.subrange(0, list@.len() as int) =~= list@);
    }
    out
}

fn list_part_of(v: u32) -> (r: AddressPart)
    requires
        V_SPAM_TO <= v,
    ensures
        r == list_part(v),
{
    let k = (v - V_SPAM_TO) % 4;
    if k == 0 {
        AddressPart::Address
    } else if k == 1 {
        AddressPart::Name
    } else if k == 2 {
        AddressPart::Local
    } else {
        AddressPart::Domain
    }
}

/// Resolves the variables of one item, found at `location`, in the context
/// of a message: numbers below `ITEM_VARIABLES` belong to the item, the
/// others to the context; a global name is 1 when the message carries it
/// as a tag, else 0.
pub struct SpamFilterResolver<'x, T: ResolveVariable> {
    pub ctx: &'x SpamFilterContext,
    pub item: &'x T,
    pub location: Location,
}

impl<'x, T: ResolveVariable> SpamFilterResolver<'x, T> {
    pub fn new(ctx: &'x SpamFilterContext, item: &'x T, location: Location) -> (r: Self)
        ensures
            r.ctx == ctx,
            r.item == item,
            r.location == location,
    {
        SpamFilterResolver { ctx, item, location }
    }
}

impl<'x, T: ResolveVariable> ResolveVariable for SpamFilterResolver<'x, T> {
    open spec fn resolves_to(&self, variable: u32, r: Variable) -> bool {
        if variable < ITEM_VARIABLES {
            self.item.resolves_to(variable, r)
        } else {
            context_value(*self.ctx, self.location, variable, r)
        }
    }

    open spec fn global_is(&self, name: Seq<char>, r: Variable) -> bool {
        r == Variable::Integer(
            if exists|i: int| 0 <= i < self.ctx.tags@.len() && (#[trigger] self.ctx.tags@[i])@ == name {
                1
            } else {
                0
            },
        )
    }

    fn resolve_variable(&self, variable: u32) -> (r: Variable) {
        let c = self.ctx;
        if variable < ITEM_VARIABLES {
            self.item.resolve_variable(variable)
        } else if variable == V_SPAM_REMOTE_IP {
            Variable::String(c.remote_ip.clone())
        } else if variable == V_SPAM_REMOTE_IP_PTR {
            Variable::String(text(&c.iprev_ptr))
        } else if variable == V_SPAM_EHLO_DOMAIN {
            Variable::String(c.ehlo_domain.clone())
        } else if variable == V_SPAM_AUTH_AS {
            Variable::String(text(&c.authenticated_as))
        } else if variable == V_SPAM_ASN {
            Variable::Integer(
                match c.asn {
                    Some(n) => n as i64,
                    None => 0,
                },
            )
        } else if variable == V_SPAM_COUNTRY {
            Variable::String(text(&c.country))
        } else if variable == V_SPAM_IS_TLS {
            Variable::Integer(if c.is_tls { 1 } else { 0 })
        } else if variable == V_SPAM_ENV_FROM {
            Variable::String(c.env_from.address.clone())
        } else if variable == V_SPAM_ENV_FROM_LOCAL {
            Variable::String(c.env_from.local_part.clone())
        } else if variable == V_SPAM_ENV_FROM_DOMAIN {
            Variable::String(c.env_from.domain.clone())
        } else if variable == V_SPAM_ENV_TO {
            Variable::Array(collect_addresses(&c.env_to))
        } else if variable == V_SPAM_FROM {
            Variable::String(c.from.email.address.clone())
        } else if variable == V_SPAM_FROM_NAME {
            Variable::String(text(&c.from.name))
        } else if variable == V_SPAM_FROM_LOCAL {
            Variable::String(c.from.email.local_part.clone())
        } else if variable == V_SPAM_FROM_DOMAIN {
            Variable::String(c.from.email.domain.clone())
        } else if variable == V_SPAM_REPLY_TO {
            Variable::String(opt_text(&c.reply_to, AddressPart::Address))
        } else if variable == V_SPAM_REPLY_TO_NAME {
            Variable::String(opt_text(&c.reply_to, AddressPart::Name))
        } else if variable == V_SPAM_REPLY_TO_LOCAL {
            Variable::String(opt_text(&c.reply_to, AddressPart::Local))
        } else if variable == V_SPAM_REPLY_TO_DOMAIN {
            Variable::String(opt_text(&c.reply_to, AddressPart::Domain))
        } else if V_SPAM_TO <= variable && variable <= V_SPAM_BCC_DOMAIN {
            let p = list_part_of(variable);
            let list = if variable < V_SPAM_CC {
                &c.recipients_to
            } else if variable < V_SPAM_BCC {
                &c.recipients_cc
            } else {
                &c.recipients_bcc
            };
            Variable::Array(collect_parts(list, p))
        } else if variable == V_SPAM_BODY_TEXT {
            Variable::String(text(&c.text_body))
        } else if variable == V_SPAM_SUBJECT {
            Variable::String(c.subject.clone())
        } else if variable == V_SPAM_SUBJECT_THREAD {
            Variable::String(c.subject_thread.clone())
        } else if variable == V_SPAM_LOCATION {
            Variable::String(String::from_str(self.location.as_str()))
        } else {
            Variable::Integer(0)
        }
    }

    fn resolve_global(&self, name: &str) -> (r: Variable) {
        let wanted = String::from_str(name);
        let tags = &self.ctx.tags;
        let mut i: usize = 0;
        while i < tags.len()
            invariant
                0 <= i <= tags@.len(),
                tags@ == self.ctx.tags@,
                wanted@ == name@,
                forall|j: int| 0 <= j < i ==> (#[trigger] tags@[j])@ != name@,
            decreases tags@.len() - i,
        {
            if tags[i] == wanted {
                proof {
                    assert(self.ctx.tags@[i as int]@ == name@);
                }
                return Variable::Integer(1);
            }
            i = i + 1;
        }
        Variable::Integer(0)
    }
}

} // verus!
