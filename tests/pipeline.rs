use sectrails::checker::{PageVerdict, TermCheck, PAGE_SPACING_SECS, RATE_LIMIT_BACKOFF_SECS};
use sectrails::client::{ClientError, FetchOutcome, SecTrailClient, Step};
use sectrails::reader::{input_terms, InputCursor, ReaderAction};
use sectrails::record::{PageResponse, Record};
use sectrails::run_state::State;
use sectrails::statistic::Statistic;
use sectrails::term::is_ipv4;
use sectrails::writer::{WriteTally, SAVE_MILESTONE};

fn record(host: &str, provider: &str) -> Record {
    Record {
        host_provider: vec![provider.to_string()],
        hostname: host.to_string(),
        mail_provider: vec![],
        open_page_rank: Some(7),
    }
}

fn page(records: Vec<Record>) -> FetchOutcome {
    FetchOutcome::Page(PageResponse::from_records(records))
}

fn ready_client(term: &str) -> SecTrailClient {
    let mut client = SecTrailClient::new();
    assert_eq!(client.next_step(), Step::Renew);
    assert!(client.session_renewed(Ok("build7".to_string())).is_ok());
    client.new_sequence(term);
    client
}

#[test]
fn ipv4_terms_are_recognised() {
    assert!(is_ipv4("198.51.100.7"));
    assert!(is_ipv4("0.0.0.0"));
    assert!(is_ipv4("255.255.255.255"));
    assert!(!is_ipv4("example.com"));
    assert!(!is_ipv4("256.1.1.1"));
    assert!(!is_ipv4("01.2.3.4"));
    assert!(!is_ipv4("1.2.3"));
    assert!(!is_ipv4("1.2.3.4.5"));
    assert!(!is_ipv4("1..2.3"));
    assert!(!is_ipv4(""));
    assert!(!is_ipv4("1.2.3.4 "));
}

#[test]
fn urls_pick_the_endpoint_by_term() {
    let client = ready_client("198.51.100.7");
    assert_eq!(
        client.next_url(),
        "https://securitytrails.com/_next/data/build7/list/ip/198.51.100.7.json?ip=198.51.100.7&page=1"
    );
    let client = ready_client("example.com");
    assert_eq!(
        client.next_url(),
        "https://securitytrails.com/_next/data/build7/list/keyword/example.com.json?keyword=example.com&page=1"
    );
}

#[test]
fn urls_before_any_session_sit_under_the_bare_prefix() {
    let mut client = SecTrailClient::new();
    client.new_sequence("198.51.100.7");
    assert_eq!(
        client.next_url(),
        "https://securitytrails.com/_next/data/ip/198.51.100.7.json?ip=198.51.100.7&page=1"
    );
    client.new_sequence("example.com");
    assert!(client.next_url().ends_with("/_next/data/keyword/example.com.json?keyword=example.com&page=1"));
}

#[test]
fn page_advances_only_after_records() {
    let mut client = ready_client("example.com");
    assert_eq!(client.page(), 1);
    assert!(client.receive(page(vec![record("a.example.com", "P")])).is_ok());
    assert_eq!(client.page(), 2);
    assert!(client.next_url().ends_with("&page=2"));
    let r = client.receive(page(vec![]));
    assert_eq!(r.ok().map(|p| p.as_records().len()), Some(0));
    assert_eq!(client.page(), 2);
}

#[test]
fn soft_errors_retry_the_same_page() {
    let mut client = ready_client("example.com");
    assert!(client.receive(page(vec![record("a", "P")])).is_ok());
    assert!(client.receive(page(vec![record("b", "P")])).is_ok());
    assert_eq!(client.page(), 3);
    let mut urls = vec![client.next_url()];
    for _ in 0..4 {
        let r = client.receive(FetchOutcome::ClientStatus(429));
        assert!(matches!(r, Err(ClientError::RateLimited(429))));
        assert_eq!(client.next_step(), Step::Fetch);
        urls.push(client.next_url());
    }
    assert!(matches!(client.receive(FetchOutcome::Malformed), Err(ClientError::Parse)));
    urls.push(client.next_url());
    assert!(urls.iter().all(|u| u.ends_with("&page=3")));
    assert!(client.receive(page(vec![record("c", "P")])).is_ok());
    assert_eq!(client.page(), 4);
}

#[test]
fn transport_failure_renews_the_session_once() {
    let mut client = ready_client("example.com");
    let mut provider_calls = 0;
    let script = vec![
        FetchOutcome::ClientStatus(429),
        FetchOutcome::Transport,
        FetchOutcome::OtherStatus(502),
        page(vec![record("a", "P")]),
    ];
    for outcome in script {
        if client.next_step() == Step::Renew {
            provider_calls += 1;
            assert!(client.session_renewed(Ok("build8".to_string())).is_ok());
        }
        let _ = client.receive(outcome);
    }
    assert_eq!(provider_calls, 1);
    assert!(client.next_url().starts_with("https://securitytrails.com/_next/data/build8/list/"));
    assert_eq!(client.page(), 2);
}

#[test]
fn transport_failure_invalidates_and_provider_failure_is_reported() {
    let mut client = ready_client("example.com");
    assert!(matches!(client.receive(FetchOutcome::Transport), Err(ClientError::SessionLost)));
    assert!(client.is_expired());
    assert_eq!(client.next_step(), Step::Renew);
    let r = client.session_renewed(Err("login failed".to_string()));
    match r {
        Err(ClientError::Provider(m)) => assert_eq!(m, "login failed"),
        _ => panic!("expected a provider error"),
    }
    assert_eq!(client.next_step(), Step::Renew);
    assert!(client.session_renewed(Ok("b".to_string())).is_ok());
    assert_eq!(client.next_step(), Step::Fetch);
    assert_eq!(client.page(), 1);
}

#[test]
fn backoff_applies_to_rate_limits_only() {
    assert_eq!(ClientError::RateLimited(429).backoff_secs(), RATE_LIMIT_BACKOFF_SECS);
    assert_eq!(RATE_LIMIT_BACKOFF_SECS, 30);
    assert_eq!(ClientError::SessionLost.backoff_secs(), 0);
    assert_eq!(ClientError::Parse.backoff_secs(), 0);
    assert_eq!(PAGE_SPACING_SECS, 6);
}

#[test]
fn checker_forwards_every_record_once_in_page_order() {
    let mut stats = Statistic::new();
    let mut run = TermCheck::new("example.com");
    let script: Vec<Result<PageResponse, ClientError>> = vec![
        Ok(PageResponse::from_records(vec![record("a1", "P"), record("a2", "P")])),
        Err(ClientError::RateLimited(429)),
        Ok(PageResponse::from_records(vec![record("b1", "P")])),
        Err(ClientError::SessionLost),
        Ok(PageResponse::from_records(vec![])),
    ];
    let mut forwarded = Vec::new();
    let mut retries = 0;
    for result in script {
        assert!(!run.is_finished());
        match run.on_result(result, &mut stats) {
            PageVerdict::Forward(records) => forwarded.extend(records.into_iter().map(|r| r.hostname)),
            PageVerdict::Retry => retries += 1,
            PageVerdict::Finished => {}
        }
    }
    assert!(run.is_finished());
    assert_eq!(forwarded, vec!["a1", "a2", "b1"]);
    assert_eq!(run.total_records(), 3);
    assert_eq!(retries, 2);
    assert_eq!(stats.get_errors(), 2);
    run.finish(&mut stats, 0);
    assert_eq!(stats.get_cur(), 1);
    assert_eq!(stats.get_bytes_processed(), "example.com".len());
}

#[test]
fn input_terms_trim_and_skip_blank_lines() {
    let terms = input_terms("  example.com \n\n\t\n198.51.100.7\r\nlast");
    assert_eq!(terms, vec!["example.com", "198.51.100.7", "last"]);
    assert_eq!(input_terms(""), Vec::<String>::new());
    assert_eq!(input_terms("\n \n"), Vec::<String>::new());
    assert_eq!(input_terms("a\n"), vec!["a"]);
    assert_eq!(input_terms("\u{3000}x y\u{a0}\n\u{2028}\n"), vec!["x y"]);
}

#[test]
fn reader_start_sets_progress_bounds() {
    let mut stats = Statistic::new();
    stats.set_current(9);
    let cursor = InputCursor::start("a\n\nb\nc\n", &mut stats);
    assert_eq!(stats.get_max(), 3);
    assert_eq!(stats.get_cur(), 0);
    assert_eq!(cursor.remaining(), 3);
}

#[test]
fn pausing_the_reader_skips_and_repeats_nothing() {
    let mut stats = Statistic::new();
    let mut cursor = InputCursor::start("t1\nt2\nt3\n", &mut stats);
    let states = [
        State::Processing,
        State::Iddling,
        State::Iddling,
        State::Exit,
        State::Processing,
        State::Iddling,
        State::Processing,
        State::Processing,
    ];
    let mut sent = Vec::new();
    let mut waits = 0;
    let mut exhausted = 0;
    for s in states {
        match cursor.poll(s) {
            ReaderAction::Send(t) => sent.push(t),
            ReaderAction::Wait => waits += 1,
            ReaderAction::Exhausted => exhausted += 1,
        }
    }
    assert_eq!(sent, vec!["t1", "t2", "t3"]);
    assert_eq!(waits, 4);
    assert_eq!(exhausted, 1);
}

#[test]
fn writer_notes_every_thousand_records() {
    let mut tally = WriteTally::new();
    let mut notes = Vec::new();
    for i in 0..2500 {
        if let Some(n) = tally.note_written() {
            notes.push((i, n));
        }
    }
    assert_eq!(notes, vec![(999, SAVE_MILESTONE), (1999, SAVE_MILESTONE)]);
    assert_eq!(SAVE_MILESTONE, 1000);
}

#[test]
fn end_to_end_two_terms() {
    let mut stats = Statistic::new();
    let mut cursor = InputCursor::start("example.com\n198.51.100.7\n", &mut stats);
    let mut client = SecTrailClient::new();
    let mut output: Vec<String> = Vec::new();
    let mut requested: Vec<String> = Vec::new();
    loop {
        let term = match cursor.poll(State::Processing) {
            ReaderAction::Send(t) => t,
            ReaderAction::Exhausted => break,
            ReaderAction::Wait => unreachable!(),
        };
        let mut run = TermCheck::new(&term);
        client.new_sequence(&term);
        let mut served = 0;
        while !run.is_finished() {
            if client.next_step() == Step::Renew {
                assert!(client.session_renewed(Ok("b".to_string())).is_ok());
            }
            let url = client.next_url();
            requested.push(url.clone());
            let outcome = if url.contains("/keyword/example.com.json") && served == 0 {
                page(vec![Record {
                    host_provider: vec!["Example Host".to_string()],
                    hostname: "www.example.com".to_string(),
                    mail_provider: vec![Some("Example Mail".to_string())],
                    open_page_rank: Some(42),
                }])
            } else {
                page(vec![])
            };
            served += 1;
            let result = client.receive(outcome);
            if let PageVerdict::Forward(records) = run.on_result(result, &mut stats) {
                output.extend(records.iter().map(|r| r.as_csv()));
            }
        }
        run.finish(&mut stats, 0);
    }
    assert_eq!(output, vec!["Example Host,www.example.com,Example Mail,42"]);
    assert_eq!(stats.get_cur(), 2);
    assert!(requested.iter().any(|u| u.contains("/ip/198.51.100.7.json?ip=198.51.100.7&page=1")));
    assert_eq!(requested.len(), 3);
}
