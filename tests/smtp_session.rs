use mailgate::envelope::{ip_text_bytes, ip_to_bytes, ip_to_bytes_prefix, EnvelopeKey, IpAddress};
use mailgate::throttle::ThrottleKey;
use mailgate::limiter::{ThrottleMap, ThrottleRule};
use mailgate::session::{
    Action, Drain, NullIo, Reply, Request, Session, SessionAddress, SessionData,
    SessionParameters, SessionThrottle, Stage, State, VerifyStrategy,
};
use std::cmp::Ordering;

fn params(rcpt_max: usize, max_message_size: usize) -> SessionParameters {
    let mut p = SessionParameters::local();
    p.rcpt_max = rcpt_max;
    p.max_message_size = max_message_size;
    p.rcpt_errors_max = 3;
    p.rcpt_errors_wait = 5;
    p.auth_errors_max = 2;
    p.auth_errors_wait = 5;
    p
}

fn session(p: SessionParameters, remote: [u8; 4]) -> Session {
    let data = SessionData::new(IpAddress::V4([10, 0, 0, 1]), IpAddress::V4(remote));
    Session::new(data, p, 1)
}

fn code(r: Option<Reply>) -> u16 {
    r.unwrap().code
}

fn cmd(s: &mut Session, map: &mut ThrottleMap, req: Request) -> u16 {
    code(s.handle_request(req, map, 0))
}

fn open(s: &mut Session, map: &mut ThrottleMap) {
    assert_eq!(cmd(s, map, Request::Ehlo { host: "mx.foobar.org".to_string() }), 250);
    assert_eq!(cmd(s, map, Request::Mail { from: "john@example.net".to_string() }), 250);
}

#[test]
fn recipient_limit_of_two() {
    let mut map = ThrottleMap::new(16, 2);
    let mut s = session(params(2, 1000), [10, 0, 0, 50]);
    open(&mut s, &mut map);
    assert_eq!(cmd(&mut s, &mut map, Request::Rcpt { to: "jane@foobar.org".to_string() }), 250);
    assert_eq!(cmd(&mut s, &mut map, Request::Rcpt { to: "bill@foobar.org".to_string() }), 250);
    let r = s.handle_request(Request::Rcpt { to: "mike@foobar.org".to_string() }, &mut map, 0).unwrap();
    assert_eq!((r.code, r.class, r.subject, r.detail), (455, 4, 5, 3));
    assert_eq!(s.data.rcpt_to.len(), 2);
}

#[test]
fn duplicate_recipients_are_recorded_once() {
    let mut map = ThrottleMap::new(16, 2);
    let mut s = session(params(5, 1000), [10, 0, 0, 50]);
    open(&mut s, &mut map);
    assert_eq!(cmd(&mut s, &mut map, Request::Rcpt { to: "Jane@Foobar.org".to_string() }), 250);
    assert_eq!(cmd(&mut s, &mut map, Request::Rcpt { to: "jane@foobar.org".to_string() }), 250);
    assert_eq!(s.data.rcpt_to.len(), 1);
    assert_eq!(s.data.rcpt_to[0].address, "Jane@Foobar.org");
    assert_eq!(s.data.rcpt_to[0].address_lcase, "jane@foobar.org");
    assert_eq!(s.data.rcpt_to[0].domain, "foobar.org");
}

#[test]
fn oversized_chunk_is_drained_and_refused() {
    let mut map = ThrottleMap::new(16, 2);
    let mut s = session(params(5, 10), [10, 0, 0, 50]);
    open(&mut s, &mut map);
    cmd(&mut s, &mut map, Request::Rcpt { to: "jane@foobar.org".to_string() });
    assert!(s.handle_request(Request::Bdat { chunk_size: 12, is_last: true }, &mut map, 0).is_none());
    assert_eq!(s.state, State::DataTooLarge(Drain::Counted { remaining: 12 }));
    let (c, r) = s.ingest(b"0123456", &mut map, 0);
    assert_eq!((c, r), (7, None));
    let (c, r) = s.ingest(b"89abcMAIL FROM:<x>", &mut map, 0);
    assert_eq!(c, 5);
    assert_eq!(code(r), 552);
    assert_eq!(s.state, State::Request);
    assert!(s.data.message.is_empty());
    assert!(s.data.mail_from.is_none());
}

#[test]
fn dot_terminated_body_across_chunks() {
    let mut map = ThrottleMap::new(16, 2);
    let mut s = session(params(5, 100), [10, 0, 0, 50]);
    open(&mut s, &mut map);
    cmd(&mut s, &mut map, Request::Rcpt { to: "jane@foobar.org".to_string() });
    assert_eq!(cmd(&mut s, &mut map, Request::Data), 354);
    let (c, r) = s.ingest(b"Subject: hi\r\n\r\nbody\r\n.", &mut map, 0);
    assert_eq!((c, r), (22, None));
    let (c, r) = s.ingest(b"\r\nQUIT\r\n", &mut map, 0);
    assert_eq!(c, 2);
    assert_eq!(code(r), 250);
    assert_eq!(s.state, State::Accepted(1));
    assert_eq!(s.data.message, b"Subject: hi\r\n\r\nbody\r\n".to_vec());
    s.finish_transaction(&mut map);
    assert_eq!(s.state, State::Request);
    assert!(s.data.rcpt_to.is_empty());
}

#[test]
fn oversized_body_is_drained_to_its_end() {
    let mut map = ThrottleMap::new(16, 2);
    let mut s = session(params(5, 4), [10, 0, 0, 50]);
    open(&mut s, &mut map);
    cmd(&mut s, &mut map, Request::Rcpt { to: "jane@foobar.org".to_string() });
    cmd(&mut s, &mut map, Request::Data);
    let (c, r) = s.ingest(b"0123456789", &mut map, 0);
    assert_eq!((c, r), (10, None));
    assert!(s.data.message.is_empty());
    let (c, r) = s.ingest(b"\r\n.\r\nNOOP", &mut map, 0);
    assert_eq!(c, 5);
    assert_eq!(code(r), 552);
    assert_eq!(s.state, State::Request);
}

#[test]
fn shared_remote_ip_under_cap_of_one() {
    let mut map = ThrottleMap::new(16, 4);
    let throttle = || SessionThrottle {
        stage: Stage::Mail,
        keys: vec![EnvelopeKey::RemoteIp],
        rule: ThrottleRule { concurrency: Some(1), rate: None },
    };
    let mut params_a = params(5, 100);
    params_a.throttle.push(throttle());
    let mut params_b = params(5, 100);
    params_b.throttle.push(throttle());
    let mut a = session(params_a, [192, 0, 2, 7]);
    let mut b = session(params_b, [192, 0, 2, 7]);
    cmd(&mut a, &mut map, Request::Ehlo { host: "a.example".to_string() });
    cmd(&mut b, &mut map, Request::Ehlo { host: "b.example".to_string() });
    assert_eq!(cmd(&mut a, &mut map, Request::Mail { from: "x@a.example".to_string() }), 250);
    let r = b.handle_request(Request::Mail { from: "y@b.example".to_string() }, &mut map, 0).unwrap();
    assert_eq!((r.code, r.class, r.subject, r.detail), (451, 4, 4, 5));
    assert!(b.data.mail_from.is_none());
    assert_eq!(cmd(&mut a, &mut map, Request::Rset), 250);
    assert_eq!(cmd(&mut b, &mut map, Request::Mail { from: "y@b.example".to_string() }), 250);
    let mut c = session(params(5, 100), [192, 0, 2, 8]);
    c.params.throttle.push(throttle());
    cmd(&mut c, &mut map, Request::Ehlo { host: "c.example".to_string() });
    assert_eq!(cmd(&mut c, &mut map, Request::Mail { from: "z@c.example".to_string() }), 250);
}

#[test]
fn command_order_is_enforced() {
    let mut map = ThrottleMap::new(16, 2);
    let mut p = params(5, 100);
    p.ehlo_require = true;
    let mut s = session(p, [10, 0, 0, 50]);
    assert_eq!(cmd(&mut s, &mut map, Request::Mail { from: "a@b.c".to_string() }), 503);
    assert_eq!(cmd(&mut s, &mut map, Request::Rcpt { to: "a@b.c".to_string() }), 503);
    assert_eq!(cmd(&mut s, &mut map, Request::Data), 503);
    open(&mut s, &mut map);
    assert_eq!(cmd(&mut s, &mut map, Request::Mail { from: "again@b.c".to_string() }), 503);
    assert_eq!(cmd(&mut s, &mut map, Request::Noop), 250);
    let q = s.handle_request(Request::Quit, &mut map, 0).unwrap();
    assert_eq!(q.code, 221);
    assert_eq!(q.action, Action::Disconnect);
}

#[test]
fn auth_failures_escalate() {
    let mut map = ThrottleMap::new(16, 2);
    let mut s = session(params(5, 100), [10, 0, 0, 50]);
    assert_eq!(cmd(&mut s, &mut map, Request::Auth), 334);
    assert_eq!(s.state, State::Sasl);
    let r = s.auth_outcome(None);
    assert_eq!((r.code, r.action), (535, Action::Delay(5)));
    cmd(&mut s, &mut map, Request::Auth);
    let r = s.auth_outcome(None);
    assert_eq!((r.code, r.action), (455, Action::Disconnect));
    assert_eq!(s.data.auth_errors, 2);
    cmd(&mut s, &mut map, Request::Auth);
    let r = s.auth_outcome(Some("jane@foobar.org".to_string()));
    assert_eq!(r.code, 235);
    assert_eq!(s.data.authenticated_as, "jane@foobar.org");
    assert_eq!(cmd(&mut s, &mut map, Request::Auth), 503);
}

#[test]
fn recipient_failures_escalate() {
    let mut s = session(params(5, 100), [10, 0, 0, 50]);
    assert_eq!(s.rcpt_failure().code, 550);
    assert_eq!(s.rcpt_failure().action, Action::Delay(5));
    let r = s.rcpt_failure();
    assert_eq!((r.code, r.action), (451, Action::Disconnect));
    assert_eq!(s.data.rcpt_errors, 3);
}

#[test]
fn long_lines_are_drained() {
    let mut map = ThrottleMap::new(16, 2);
    let mut s = session(params(5, 100), [10, 0, 0, 50]);
    s.request_too_large();
    assert_eq!(s.ingest(b"xxxxxxxx", &mut map, 0), (8, None));
    let (c, r) = s.ingest(b"yy\r\nNOOP\r\n", &mut map, 0);
    assert_eq!(c, 4);
    assert_eq!(code(r), 554);
    assert_eq!(s.state, State::Request);
}

#[test]
fn addresses_order_by_domain_then_address() {
    let a = SessionAddress::new("Zed@Alpha.org".to_string());
    let b = SessionAddress::new("amy@beta.org".to_string());
    let c = SessionAddress::new("zed@alpha.org".to_string());
    assert_eq!(a.compare(&b), Ordering::Less);
    assert_eq!(b.compare(&a), Ordering::Greater);
    assert_eq!(a.compare(&c), Ordering::Equal);
    assert!(a == c);
    assert!(a != b);
    assert_eq!(SessionAddress::new("nodomain".to_string()).domain, "");
    assert_eq!(SessionAddress::new("a@b@C.net".to_string()).domain, "c.net");
}

#[test]
fn local_sessions_and_null_io() {
    let s = Session::sieve(SessionAddress::new("a@b.c".to_string()), vec![], b"hi".to_vec());
    assert_eq!(s.state, State::Local);
    assert_eq!(s.data.helo_domain, "localhost");
    assert_eq!(s.data.authenticated_as, "local");
    assert_eq!(s.data.remote_ip, IpAddress::V4([127, 0, 0, 1]));
    let mut io = NullIo::default();
    assert!(io.is_tls());
    assert_eq!(io.write(b"250 OK\r\n"), 8);
    assert_eq!(io.has_failed(), None);
    io.write(b"550 5.1.1 No such user\r\n");
    assert_eq!(io.has_failed(), Some("550 5.1.1 No such user".to_string()));
    assert!(io.tx_buf.is_empty());
}

#[test]
fn ip_bytes_and_strategies() {
    assert_eq!(ip_to_bytes(&IpAddress::V4([10, 0, 0, 1])), vec![10, 0, 0, 1]);
    let v6 = IpAddress::V6([0, 1, 2, 3, 4, 5, 6, 7, 8, 9, 10, 11, 12, 13, 14, 15]);
    let p = ip_to_bytes_prefix(9, &v6);
    assert_eq!(p.len(), 17);
    assert_eq!(p[0], 9);
    assert_eq!(p[16], 15);
    assert!(VerifyStrategy::Strict.verify() && VerifyStrategy::Strict.is_strict());
    assert!(VerifyStrategy::Relaxed.verify() && !VerifyStrategy::Relaxed.is_strict());
    assert!(!VerifyStrategy::Disable.verify());
}

#[test]
fn addresses_print_in_their_usual_text() {
    let cases: Vec<([u8; 16], &str)> = vec![
        ([0; 16], "::"),
        ([0, 0, 0, 0, 0, 0, 0, 0, 0, 0, 0, 0, 0, 0, 0, 1], "::1"),
        ([0x20, 0x01, 0x0d, 0xb8, 0, 0, 0, 0, 0, 0, 0, 0, 0, 0, 0, 1], "2001:db8::1"),
        ([0x20, 0x01, 0x0d, 0xb8, 0, 0, 0, 1, 0, 0, 0, 0, 0, 1, 0, 0], "2001:db8:0:1::1:0"),
        ([0x20, 0x01, 0x0d, 0xb8, 0, 1, 0, 2, 0, 3, 0, 4, 0, 5, 0, 6], "2001:db8:1:2:3:4:5:6"),
        ([0x20, 0x01, 0, 0, 0, 0, 0, 1, 0, 0, 0, 0, 0, 0, 0xab, 0xcd], "2001:0:0:1::abcd"),
        ([0x20, 0x01, 0x0d, 0xb8, 0, 0, 0, 1, 0, 1, 0, 1, 0, 1, 0, 1], "2001:db8:0:1:1:1:1:1"),
        ([0, 0, 0, 0, 0, 0, 0, 0, 0, 0, 0xff, 0xff, 192, 0, 2, 1], "::ffff:192.0.2.1"),
        ([0xfe, 0x80, 0, 0, 0, 0, 0, 0, 0x02, 0x11, 0x22, 0xff, 0xfe, 0x33, 0x44, 0x55], "fe80::211:22ff:fe33:4455"),
    ];
    for (o, expected) in cases {
        assert_eq!(String::from_utf8(ip_text_bytes(&IpAddress::V6(o))).unwrap(), expected);
    }
    for (o, expected) in [([0u8, 0, 0, 0], "0.0.0.0"), ([192, 0, 2, 255], "192.0.2.255"), ([10, 20, 30, 40], "10.20.30.40")] {
        assert_eq!(String::from_utf8(ip_text_bytes(&IpAddress::V4(o))).unwrap(), expected);
    }
}

#[test]
fn throttle_keys_digest_the_text_of_each_dimension() {
    let mut s = session(params(5, 100), [192, 0, 2, 7]);
    s.data.priority = -12;
    let key = s.throttle_key(&vec![EnvelopeKey::RemoteIp], &None, &None);
    assert!(key.eq(&ThrottleKey::derive(b"192.0.2.7")));
    let key = s.throttle_key(&vec![EnvelopeKey::Listener, EnvelopeKey::Priority, EnvelopeKey::LocalIp], &None, &None);
    assert!(key.eq(&ThrottleKey::derive(b"1-1210.0.0.1")));
    let sender = Some(SessionAddress::new("Ann@Foobar.org".to_string()));
    let key = s.throttle_key(&vec![EnvelopeKey::SenderDomain, EnvelopeKey::Sender], &sender, &None);
    assert!(key.eq(&ThrottleKey::derive(b"foobar.organn@foobar.org")));
}

#[test]
fn replies_through_null_io() {
    let mut map = ThrottleMap::new(16, 2);
    let mut s = session(params(2, 10), [10, 0, 0, 50]);
    let mut io = NullIo::default();
    open(&mut s, &mut map);
    for to in ["jane@foobar.org", "bill@foobar.org"] {
        let r = s.handle_request(Request::Rcpt { to: to.to_string() }, &mut map, 0).unwrap();
        io.write_reply(&r);
        assert_eq!(io.has_failed(), None);
    }
    let r = s.handle_request(Request::Rcpt { to: "mike@foobar.org".to_string() }, &mut map, 0).unwrap();
    io.write_reply(&r);
    assert_eq!(io.has_failed(), Some("455 4.5.3".to_string()));
    assert_eq!(s.data.rcpt_to.len(), 2);
    assert!(s.handle_request(Request::Bdat { chunk_size: 11, is_last: true }, &mut map, 0).is_none());
    let (c, r) = s.ingest(b"hello world", &mut map, 0);
    assert_eq!(c, 11);
    io.write_reply(&r.unwrap());
    assert_eq!(io.has_failed(), Some("552 5.3.4".to_string()));
    assert_eq!(s.state, State::Request);
    let r = Reply { code: 354, class: 0, subject: 0, detail: 0, action: Action::Continue };
    io.write_reply(&r);
    assert_eq!(io.tx_buf, b"354\r\n".to_vec());
}
