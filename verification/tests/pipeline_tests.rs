use walrus::addr::Expansion;
use walrus::dispatch::Phase;
use walrus::dispatch::Run;
use walrus::limiter::Limiter;
use walrus::text::decode_input;
use walrus::text::flatten_newlines;
use walrus::text::split_lines;
use walrus::whois::decode_response;
use walrus::whois::query_line;
use walrus::whois::LookupError;
use walrus::whois::LookupOutcome;

#[test]
fn query_line_appends_crlf() {
    assert_eq!(query_line("1.2.3.4"), "1.2.3.4\r\n");
    assert_eq!(query_line(""), "\r\n");
}

#[test]
fn flatten_replaces_every_line_feed() {
    assert_eq!(flatten_newlines("a\nb\nc"), "a b c");
    assert_eq!(flatten_newlines("\n\n"), "  ");
    assert_eq!(flatten_newlines("plain"), "plain");
}

#[test]
fn decode_response_flattens_ascii() {
    let bytes: Vec<u8> = b"AS | IP\n15169 | 8.8.8.8\n".to_vec();
    assert_eq!(decode_response(&bytes), "AS | IP 15169 | 8.8.8.8 ");
}

#[test]
fn decode_response_replaces_invalid_bytes() {
    let bytes: Vec<u8> = vec![b'a', 0xFF, b'b'];
    assert_eq!(decode_response(&bytes), "a\u{FFFD}b");
}

#[test]
fn decode_input_passes_ascii_through() {
    assert_eq!(decode_input(b"8.8.8.0/30\n1.1.1.1\n"), "8.8.8.0/30\n1.1.1.1\n");
}

#[test]
fn decode_input_transcodes_utf16_by_bom() {
    // "hi" in UTF-16LE behind its byte-order mark.
    let bytes = [0xFFu8, 0xFE, b'h', 0x00, b'i', 0x00];
    assert_eq!(decode_input(&bytes), "hi");
}

#[test]
fn split_lines_strips_terminators() {
    assert_eq!(split_lines("a\nb"), vec!["a", "b"]);
    assert_eq!(split_lines("a\r\nb\r\n"), vec!["a", "b"]);
    assert_eq!(split_lines(""), Vec::<String>::new());
    assert_eq!(split_lines("\n"), vec![""]);
    assert_eq!(split_lines("a\n\nb"), vec!["a", "", "b"]);
    assert_eq!(split_lines("tail"), vec!["tail"]);
    // A carriage return goes only with a line feed: an unterminated tail
    // keeps its own.
    assert_eq!(split_lines("a\r\nb\r"), vec!["a", "b\r"]);
}

#[test]
fn error_markers_name_the_failure() {
    assert_eq!(LookupError::Connection.marker(), "ERROR: connection failed");
    assert_eq!(LookupError::ProtocolIo.marker(), "ERROR: lookup failed");
}

#[test]
fn limiter_refuses_only_at_capacity() {
    let mut l = Limiter::new(2);
    assert!(l.try_acquire());
    assert!(l.try_acquire());
    assert!(!l.try_acquire());
    l.release();
    assert!(l.try_acquire());
    assert_eq!(l.in_flight, 2);
}

fn run_lines(lines: &[&str], quick: bool, fail: bool) -> (String, Vec<String>, Run) {
    let mut run = Run::new(10);
    let header = run.start();
    let mut rows = Vec::new();
    for line in lines {
        let mut e = Expansion::expand(line, quick);
        while let Some(target) = e.next_target() {
            assert!(run.try_begin_unit(&target));
            let outcome = if fail {
                LookupOutcome::Failed(LookupError::Connection)
            } else {
                LookupOutcome::Response(format!("asn data for {}", target))
            };
            rows.push(run.complete_unit(target, outcome));
        }
    }
    run.seal();
    run.finish();
    (header, rows, run)
}

#[test]
fn full_run_writes_header_and_one_row_per_unit() {
    let (header, rows, run) = run_lines(&["8.8.8.0/30", "1.1.1.1"], false, false);
    assert_eq!(header, "IP,Whois Result\n");
    assert_eq!(rows.len(), 5);
    assert_eq!(run.scheduled, 5);
    assert_eq!(run.completed, 5);
    assert_eq!(run.sink.rows.len(), 5);
    assert!(matches!(run.phase, Phase::Done));
    assert_eq!(rows[0], "8.8.8.0,asn data for 8.8.8.0\n");
    assert_eq!(run.sink.rows[4].target, "1.1.1.1");
}

#[test]
fn quick_run_writes_one_row_per_line() {
    let (header, rows, run) = run_lines(&["8.8.8.0/30", "1.1.1.1"], true, false);
    assert_eq!(header, "IP,Whois Result\n");
    assert_eq!(rows.len(), 2);
    assert_eq!(run.sink.rows.len(), 2);
    assert_eq!(run.sink.rows[0].target, "8.8.8.0");
    assert_eq!(run.sink.rows[1].target, "1.1.1.1");
}

#[test]
fn failed_lookups_still_fill_every_row() {
    let (header, rows, run) = run_lines(&["8.8.8.0/30", "1.1.1.1"], false, true);
    assert_eq!(header, "IP,Whois Result\n");
    assert_eq!(rows.len(), 5);
    assert_eq!(run.sink.rows.len(), 5);
    for row in &run.sink.rows {
        assert_eq!(row.response, "ERROR: connection failed");
    }
    assert_eq!(rows[4], "1.1.1.1,ERROR: connection failed\n");
}

#[test]
fn rerun_logs_the_same_target_set() {
    let (_, _, first) = run_lines(&["8.8.8.0/30", "1.1.1.1"], false, false);
    let (_, _, second) = run_lines(&["8.8.8.0/30", "1.1.1.1"], false, true);
    let firsts: Vec<&str> = first.sink.rows.iter().map(|r| r.target.as_str()).collect();
    let seconds: Vec<&str> = second.sink.rows.iter().map(|r| r.target.as_str()).collect();
    assert_eq!(firsts, seconds);
}

#[test]
fn sink_quotes_fields_that_need_it() {
    let mut run = Run::new(1);
    run.start();
    assert!(run.try_begin_unit("1.1.1.1"));
    let line = run.complete_unit(
        "1.1.1.1".to_string(),
        LookupOutcome::Response("a,\"b".to_string()),
    );
    assert_eq!(line, "1.1.1.1,\"a,\"\"b\"\n");
}

#[test]
fn run_caps_units_in_flight() {
    let mut run = Run::new(2);
    run.start();
    assert!(run.try_begin_unit("1.1.1.1"));
    assert!(run.try_begin_unit("1.1.1.2"));
    assert!(!run.try_begin_unit("1.1.1.3"));
    run.complete_unit(
        "1.1.1.1".to_string(),
        LookupOutcome::Failed(LookupError::ProtocolIo),
    );
    assert!(run.try_begin_unit("1.1.1.3"));
}
