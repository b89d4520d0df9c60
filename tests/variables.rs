use mailgate::resolver::{
    EmailAddress, Location, NamedAddress, ResolveVariable, SpamFilterContext, SpamFilterResolver,
    StringListResolver, StringResolver, Variable, V_SPAM_ASN, V_SPAM_AUTH_AS, V_SPAM_BCC,
    V_SPAM_BODY_TEXT, V_SPAM_CC_DOMAIN, V_SPAM_EHLO_DOMAIN, V_SPAM_ENV_FROM_DOMAIN, V_SPAM_ENV_TO,
    V_SPAM_FROM_NAME, V_SPAM_IS_TLS, V_SPAM_LOCATION, V_SPAM_REMOTE_IP, V_SPAM_REMOTE_IP_PTR,
    V_SPAM_REPLY_TO, V_SPAM_TO, V_SPAM_TO_LOCAL, V_SPAM_TO_NAME,
};
use mailgate::account::{AccountId, HttpAuthCache, ImapId, IntoString, MailboxId, MailboxState, NextMailboxState, Threads};
use std::collections::HashMap;

use mailgate::text::domain_part;

fn email(address: &str) -> EmailAddress {
    let (local, domain) = address.split_once('@').unwrap();
    EmailAddress { address: address.to_string(), local_part: local.to_string(), domain: domain.to_string() }
}

fn named(name: Option<&str>, address: &str) -> NamedAddress {
    NamedAddress { name: name.map(|n| n.to_string()), email: email(address) }
}

fn context() -> SpamFilterContext {
    SpamFilterContext {
        remote_ip: "192.0.2.7".to_string(),
        iprev_ptr: None,
        ehlo_domain: "mx.example.net".to_string(),
        authenticated_as: Some("jane".to_string()),
        asn: Some(64500),
        country: None,
        is_tls: true,
        env_from: email("bounce@example.net"),
        env_to: vec![email("a@foobar.org"), email("b@foobar.org")],
        from: named(Some("Sender"), "sender@example.net"),
        reply_to: None,
        recipients_to: vec![named(Some("Ann"), "ann@foobar.org"), named(None, "bob@foobar.org"), named(Some("Cy"), "cy@foobar.org")],
        recipients_cc: vec![named(None, "dee@other.org")],
        recipients_bcc: vec![],
        text_body: Some("hello".to_string()),
        subject: "offer".to_string(),
        subject_thread: "offer".to_string(),
        tags: vec!["SPF_PASS".to_string()],
    }
}

fn text_of(v: Variable) -> String {
    match v {
        Variable::String(s) => s,
        other => panic!("not a string: {:?}", other),
    }
}

fn list_of(v: Variable) -> Vec<String> {
    match v {
        Variable::Array(a) => a,
        other => panic!("not a list: {:?}", other),
    }
}

#[test]
fn string_resolvers() {
    let r = StringResolver("hello");
    assert!(matches!(r.resolve_variable(7), Variable::String(s) if s == "hello"));
    assert!(matches!(r.resolve_global("x"), Variable::Integer(0)));
    let list = vec!["a".to_string(), "b".to_string()];
    let l = StringListResolver(&list);
    assert!(matches!(l.resolve_variable(0), Variable::Array(v) if v == list));
}

#[test]
fn spam_filter_context_variables() {
    let ctx = context();
    let item = StringResolver("item");
    let sf = SpamFilterResolver::new(&ctx, &item, Location::HeaderFrom);
    assert_eq!(text_of(sf.resolve_variable(3)), "item");
    assert_eq!(text_of(sf.resolve_variable(V_SPAM_REMOTE_IP)), "192.0.2.7");
    assert_eq!(text_of(sf.resolve_variable(V_SPAM_REMOTE_IP_PTR)), "");
    assert_eq!(text_of(sf.resolve_variable(V_SPAM_EHLO_DOMAIN)), "mx.example.net");
    assert_eq!(text_of(sf.resolve_variable(V_SPAM_AUTH_AS)), "jane");
    assert!(matches!(sf.resolve_variable(V_SPAM_ASN), Variable::Integer(64500)));
    assert!(matches!(sf.resolve_variable(V_SPAM_IS_TLS), Variable::Integer(1)));
    assert_eq!(text_of(sf.resolve_variable(V_SPAM_ENV_FROM_DOMAIN)), "example.net");
    assert_eq!(list_of(sf.resolve_variable(V_SPAM_ENV_TO)), vec!["a@foobar.org", "b@foobar.org"]);
    assert_eq!(text_of(sf.resolve_variable(V_SPAM_FROM_NAME)), "Sender");
    assert_eq!(text_of(sf.resolve_variable(V_SPAM_REPLY_TO)), "");
    assert_eq!(
        list_of(sf.resolve_variable(V_SPAM_TO)),
        vec!["ann@foobar.org", "bob@foobar.org", "cy@foobar.org"]
    );
    assert_eq!(list_of(sf.resolve_variable(V_SPAM_TO_NAME)), vec!["Ann", "Cy"]);
    assert_eq!(list_of(sf.resolve_variable(V_SPAM_TO_LOCAL)), vec!["ann", "bob", "cy"]);
    assert_eq!(list_of(sf.resolve_variable(V_SPAM_CC_DOMAIN)), vec!["other.org"]);
    assert!(list_of(sf.resolve_variable(V_SPAM_BCC)).is_empty());
    assert_eq!(text_of(sf.resolve_variable(V_SPAM_BODY_TEXT)), "hello");
    assert_eq!(text_of(sf.resolve_variable(V_SPAM_LOCATION)), "from");
    assert!(matches!(sf.resolve_global("SPF_PASS"), Variable::Integer(1)));
    assert!(matches!(sf.resolve_global("DKIM_FAIL"), Variable::Integer(0)));
}

#[test]
fn text_helpers() {
    assert_eq!(domain_part("user@Example.org"), "Example.org");
    assert_eq!(domain_part("no-at-sign"), "");
    assert_eq!(vec![0x68u8, 0x69].into_string(), "hi");
    assert_eq!(vec![0x61u8, 0xff].into_string(), "a\u{fffd}");
}

#[test]
fn cache_item_weights() {
    assert_eq!(AccountId { account_id: 1, primary_id: 2 }.weight(), 8);
    assert_eq!(MailboxId { account_id: 1, mailbox_id: 2 }.weight(), 8);
    assert_eq!(HttpAuthCache { account_id: 1, revision: 2 }.weight(), 16);
}

fn mailbox(ids: u32, next: Option<Box<NextMailboxState>>) -> MailboxState {
    let mut id_to_imap = HashMap::new();
    let mut uid_to_id = HashMap::new();
    for i in 0..ids {
        id_to_imap.insert(i, ImapId { uid: i + 1, seqnum: i + 1 });
        uid_to_id.insert(i + 1, i);
    }
    MailboxState {
        uid_next: ids + 1,
        uid_validity: 7,
        uid_max: ids,
        id_to_imap,
        uid_to_id,
        total_messages: ids as usize,
        modseq: None,
        next_state: next,
        obj_size: 99,
    }
}

#[test]
fn mailbox_state_weights() {
    let base = std::mem::size_of::<MailboxState>() as u64 + 4;
    let m = mailbox(3, None);
    assert_eq!(m.weight(), 99);
    assert_eq!(m.calculate_weight(), base + 3 * 8 + 3 * 8);
    let next = NextMailboxState { next_state: mailbox(1, None), deletions: vec![ImapId::default(); 2] };
    let m = mailbox(2, Some(Box::new(next)));
    let expected = base + 2 * 8 + 2 * 8
        + std::mem::size_of::<NextMailboxState>() as u64 + 2 * 8
        + base + 8 + 8;
    assert_eq!(m.calculate_weight(), expected);
    let mut threads = HashMap::new();
    threads.insert(1, 2);
    let t = Threads { threads, modseq: None };
    assert_eq!(t.weight(), 3 * std::mem::size_of::<Threads>() as u64);
}
