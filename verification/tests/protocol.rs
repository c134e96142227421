use vmsa_test::protocol::{validate_parser, Counts, Event, Parser};

fn feed(parser: &mut Parser, lines: &[&str]) {
    for line in lines {
        parser.parse_line(line).expect("line accepted");
    }
}

#[test]
fn parser_self_check_passes() {
    assert_eq!(validate_parser(), Ok(()));
}

#[test]
fn complete_stream_yields_events_and_counts() {
    let mut parser = Parser::new();
    assert_eq!(
        parser.parse_line("@@VMSA BEGIN protocol=1 target=ns-el2"),
        Ok(Some(Event::Begin { target: "ns-el2".into() }))
    );
    assert_eq!(parser.target(), Some("ns-el2"));
    assert_eq!(
        parser.parse_line("@@VMSA CAP rme=+7"),
        Ok(Some(Event::Capability { name: "rme".into(), value: 7 }))
    );
    assert_eq!(parser.parse_line("@@VMSA RUN a.b"), Ok(Some(Event::Run { name: "a.b".into() })));
    assert_eq!(parser.active_test(), Some("a.b"));
    assert_eq!(parser.parse_line("@@VMSA   FAIL \t a.b reason=wrong"), Ok(Some(Event::Fail {
        name: "a.b".into(),
        reason: "wrong".into(),
    })));
    assert_eq!(parser.parse_line("@@VMSA SKIP c reason=x=y"), Ok(Some(Event::Skip {
        name: "c".into(),
        reason: "x=y".into(),
    })));
    let counts = Counts { passed: 0, failed: 1, skipped: 1 };
    assert_eq!(parser.parse_line("@@VMSA END passed=0 failed=1 skipped=1"), Ok(Some(Event::End(counts.clone()))));
    assert!(parser.has_ended());
    assert_eq!(parser.finish(), Ok(counts));
}

#[test]
fn console_noise_is_not_a_record() {
    let mut parser = Parser::new();
    assert_eq!(parser.parse_line("booting..."), Ok(None));
    assert_eq!(parser.parse_line(" @@VMSA BEGIN protocol=1 target=x"), Ok(None));
    assert!(!parser.has_begun());
    assert_eq!(parser.finish(), Err("missing BEGIN".to_string()));
}

#[test]
fn records_are_checked_against_the_stream() {
    let mut parser = Parser::new();
    assert_eq!(
        parser.parse_line("@@VMSA RUN x"),
        Err("protocol record before BEGIN: RUN".to_string())
    );
    feed(&mut parser, &["@@VMSA BEGIN protocol=1 target=x", "@@VMSA RUN t1"]);
    assert_eq!(
        parser.parse_line("@@VMSA CAP a=1"),
        Err("record while test is active: t1".to_string())
    );
    assert_eq!(
        parser.parse_line("@@VMSA PASS t2"),
        Err("completion for t2 while t1 is active".to_string())
    );
    assert_eq!(parser.finish(), Err("result stream ended with an active test".to_string()));
    feed(&mut parser, &["@@VMSA PASS t1"]);
    assert_eq!(parser.parse_line("@@VMSA RUN t1"), Err("test run twice: t1".to_string()));
    assert_eq!(parser.parse_line("@@VMSA PASS t1"), Err("completion without RUN: t1".to_string()));
    assert_eq!(
        parser.parse_line("@@VMSA SKIP t1 reason=x"),
        Err("duplicate test completion: t1".to_string())
    );
    assert_eq!(
        parser.parse_line("@@VMSA END passed=2 failed=0 skipped=0"),
        Err("END counters Counts { passed: 2, failed: 0, skipped: 0 } do not match observed Counts { passed: 1, failed: 0, skipped: 0 }".to_string())
    );
    assert_eq!(parser.finish(), Err("missing END".to_string()));
    feed(&mut parser, &["@@VMSA END passed=1 failed=0 skipped=0"]);
    assert_eq!(
        parser.parse_line("@@VMSA RUN late"),
        Err("protocol record after END: RUN".to_string())
    );
    assert_eq!(parser.observed_counts(), &Counts { passed: 1, failed: 0, skipped: 0 });
}

#[test]
fn malformed_fields_are_named() {
    let mut parser = Parser::new();
    assert_eq!(
        parser.parse_line("@@VMSABEGIN"),
        Err("missing space after protocol prefix".to_string())
    );
    assert_eq!(parser.parse_line("@@VMSA    "), Err("empty protocol record".to_string()));
    assert_eq!(
        parser.parse_line("@@VMSA BEGIN protocol=2 target=x"),
        Err("unsupported protocol version 2; expected 1".to_string())
    );
    assert_eq!(parser.parse_line("@@VMSA BEGIN"), Err("missing protocol field".to_string()));
    assert_eq!(
        parser.parse_line("@@VMSA BEGIN protocol"),
        Err("malformed field: protocol".to_string())
    );
    assert_eq!(
        parser.parse_line("@@VMSA BEGIN version=1"),
        Err("expected non-empty protocol field".to_string())
    );
    assert_eq!(
        parser.parse_line("@@VMSA BEGIN protocol=x"),
        Err("invalid protocol counter".to_string())
    );
    assert_eq!(
        parser.parse_line("@@VMSA BEGIN protocol=1 target=a/b"),
        Err("invalid target; expected at most 128 ASCII name bytes".to_string())
    );
    assert_eq!(
        parser.parse_line("@@VMSA BEGIN protocol=1 target=x extra"),
        Err("unexpected field: extra".to_string())
    );
    feed(&mut parser, &["@@VMSA BEGIN protocol=1 target=x"]);
    assert_eq!(parser.parse_line("@@VMSA BEGIN protocol=1 target=x"), Err("duplicate BEGIN".to_string()));
    assert_eq!(parser.parse_line("@@VMSA CAP"), Err("CAP requires one field".to_string()));
    assert_eq!(parser.parse_line("@@VMSA CAP =1"), Err("empty capability name".to_string()));
    assert_eq!(parser.parse_line("@@VMSA CAP a=-1"), Err("invalid capability value".to_string()));
    assert_eq!(parser.parse_line("@@VMSA RUN a=b"), Err("missing or invalid RUN test name".to_string()));
    assert_eq!(parser.parse_line("@@VMSA SKIP s"), Err("missing reason field".to_string()));
    assert_eq!(
        parser.parse_line("@@VMSA SKIP s reason="),
        Err("expected non-empty reason field".to_string())
    );
    assert_eq!(parser.parse_line("@@VMSA HELLO"), Err("unknown protocol record: HELLO".to_string()));
    let oversized = format!("@@VMSA RUN {}", "x".repeat(512));
    assert_eq!(
        parser.parse_line(&oversized),
        Err("protocol line exceeds 512-byte limit".to_string())
    );
    let long_name = format!("@@VMSA RUN {}", "x".repeat(129));
    assert_eq!(
        parser.parse_line(&long_name),
        Err("invalid RUN test name; expected at most 128 ASCII name bytes".to_string())
    );
}

#[test]
fn line_limit_counts_bytes() {
    let mut parser = Parser::new();
    feed(&mut parser, &["@@VMSA BEGIN protocol=1 target=x"]);
    // 251 two-byte characters after an 11-byte head: 262 characters, 513 bytes.
    let wide = format!("@@VMSA RUN {}", "é".repeat(251));
    assert_eq!(parser.parse_line(&wide), Err("protocol line exceeds 512-byte limit".to_string()));
}

#[test]
fn rejected_record_leaves_parser_unchanged() {
    let mut parser = Parser::new();
    feed(&mut parser, &["@@VMSA BEGIN protocol=1 target=x", "@@VMSA RUN t"]);
    assert!(parser.parse_line("@@VMSA FAIL t").is_err());
    assert_eq!(parser.active_test(), Some("t"));
    assert_eq!(parser.observed_counts(), &Counts { passed: 0, failed: 0, skipped: 0 });
}

#[test]
fn failure_may_carry_fields_after_its_reason() {
    let mut parser = Parser::new();
    feed(&mut parser, &["@@VMSA BEGIN protocol=1 target=host-self-check", "@@VMSA RUN host.destructive"]);
    assert_eq!(
        parser.parse_line("@@VMSA FAIL host.destructive reason=wrong-fatal-kind expected=0 actual=1"),
        Ok(Some(Event::Fail { name: "host.destructive".into(), reason: "wrong-fatal-kind".into() }))
    );
    assert_eq!(parser.observed_counts(), &Counts { passed: 0, failed: 1, skipped: 0 });
    assert_eq!(parser.active_test(), None);
}

#[test]
fn fields_after_a_failure_reason_must_be_key_value() {
    let mut parser = Parser::new();
    feed(&mut parser, &["@@VMSA BEGIN protocol=1 target=x", "@@VMSA RUN t"]);
    assert_eq!(
        parser.parse_line("@@VMSA FAIL t reason=wrong stray"),
        Err("malformed field: stray".to_string())
    );
    assert_eq!(
        parser.parse_line("@@VMSA FAIL t reason=wrong =1"),
        Err("malformed field: =1".to_string())
    );
    assert_eq!(
        parser.parse_line("@@VMSA SKIP u reason=x extra=1"),
        Err("record while test is active: t".to_string())
    );
    assert_eq!(parser.active_test(), Some("t"));
}

#[test]
fn skip_reason_must_be_the_last_field() {
    let mut parser = Parser::new();
    feed(&mut parser, &["@@VMSA BEGIN protocol=1 target=x"]);
    assert_eq!(
        parser.parse_line("@@VMSA SKIP u reason=x extra=1"),
        Err("unexpected field: extra=1".to_string())
    );
}

#[test]
fn parser_state_follows_the_events_it_returned() {
    let mut parser = Parser::new();
    let lines = [
        "noise",
        "@@VMSA RUN early",
        "@@VMSA BEGIN protocol=1 target=secure-el2",
        "@@VMSA BEGIN protocol=1 target=other",
        "@@VMSA RUN a",
        "@@VMSA PASS a",
        "@@VMSA RUN b",
        "@@VMSA PASS a",
        "@@VMSA FAIL b reason=x expected=1 actual=2",
        "@@VMSA SKIP c reason=y",
        "@@VMSA RUN d",
    ];
    let (mut begins, mut passes, mut fails, mut skips) = (0, 0, 0, 0);
    let mut names = Vec::new();
    let mut open = None;
    for line in lines {
        match parser.parse_line(line) {
            Ok(Some(Event::Begin { .. })) => begins += 1,
            Ok(Some(Event::Run { name })) => open = Some(name),
            Ok(Some(Event::Pass { name })) => {
                passes += 1;
                names.push(name);
                open = None;
            }
            Ok(Some(Event::Fail { name, .. })) => {
                fails += 1;
                names.push(name);
                open = None;
            }
            Ok(Some(Event::Skip { name, .. })) => {
                skips += 1;
                names.push(name);
            }
            _ => {}
        }
    }
    assert_eq!(begins, 1);
    assert!(parser.has_begun());
    assert_eq!(parser.target(), Some("secure-el2"));
    assert!(!parser.has_ended());
    assert_eq!(parser.active_test(), open.as_deref());
    assert_eq!(parser.active_test(), Some("d"));
    assert_eq!(parser.observed_counts(), &Counts { passed: passes, failed: fails, skipped: skips });
    assert_eq!(names, vec!["a".to_string(), "b".to_string(), "c".to_string()]);
}
