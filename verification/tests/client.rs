use distiller::artifacts::artifact_key;
use distiller::artifacts::decode_report;
use distiller::artifacts::decode_transcript;
use distiller::artifacts::report_key;
use distiller::artifacts::transcript_key;
use distiller::artifacts::transcript_of;
use distiller::artifacts::unescape;
use distiller::artifacts::REPORT_SUFFIX;
use distiller::artifacts::TRANSCRIPT_SUFFIX;
use distiller::display::check_truncate;
use distiller::display::status_rows;
use distiller::display::truncate_arn;
use distiller::error::ClientError;
use distiller::json::parse;
use distiller::json::quote;
use distiller::json::Json;
use distiller::lookup::document_names_key;
use distiller::lookup::find_execution;
use distiller::lookup::input_matches;
use distiller::lookup::scan_begin;
use distiller::lookup::scan_step;
use distiller::lookup::RunRecord;
use distiller::lookup::ScanStep;
use distiller::status::advance;
use distiller::status::wait_for_completion;
use distiller::status::PollAction;
use distiller::status::RunReport;
use distiller::status::RunState;
use distiller::status::RunStatus;
use distiller::status::POLLING_INTERVAL;
use distiller::submit::input_document;
use distiller::submit::holds_slash;
use distiller::submit::key_of;
use distiller::submit::process_file;
use distiller::submit::start_input;
use distiller::submit::storage_key;
use distiller::submit::DEFAULT_LANGUAGE;

const RUN: &str = "arn:aws:states:run-1";

fn report(name: &str) -> RunReport {
    RunReport { execution_arn: RUN.to_string(), status: RunStatus::from_name(name), error: None }
}

fn failed(error: Option<&str>) -> ClientError {
    ClientError::ExecutionFailed { execution_arn: RUN.to_string(), error: error.map(String::from) }
}

fn unexpected(status: &str) -> ClientError {
    ClientError::UnexpectedStatus { execution_arn: RUN.to_string(), status: status.to_string() }
}

fn run(arn: &str, input: Option<&str>) -> RunRecord {
    RunRecord { execution_arn: arn.to_string(), input: input.map(String::from) }
}

#[test]
fn await_sleeps_twice_before_success() {
    let reports = vec![report("RUNNING"), report("RUNNING"), report("SUCCEEDED")];
    let outcome = wait_for_completion(&reports, POLLING_INTERVAL);
    assert_eq!(outcome.sleeps, 2);
    assert_eq!(outcome.state, RunState::Succeeded);
}

#[test]
fn await_step_by_step() {
    let mut state = RunState::Started;
    let mut sleeps = 0;
    let mut finished = false;
    for name in ["RUNNING", "RUNNING", "SUCCEEDED"] {
        assert!(!finished);
        let (next, action) = advance(state, &report(name), 5);
        match action {
            PollAction::Sleep(seconds) => {
                assert_eq!(seconds, 5);
                sleeps += 1;
            }
            PollAction::Finish => finished = true,
            PollAction::Fail(e) => panic!("{}", e.message()),
        }
        state = next;
    }
    assert!(finished);
    assert_eq!(sleeps, 2);
    assert!(state.is_settled());
}

#[test]
fn await_surfaces_the_recorded_error() {
    let reports = vec![
        report("RUNNING"),
        RunReport { execution_arn: RUN.to_string(), status: RunStatus::Failed, error: Some("States.TaskFailed".to_string()) },
        report("SUCCEEDED"),
    ];
    let outcome = wait_for_completion(&reports, 5);
    assert_eq!(outcome.sleeps, 1);
    assert_eq!(failed(Some("States.TaskFailed")).message(), "Execution failed: arn:aws:states:run-1: States.TaskFailed");
    assert_eq!(outcome.state, RunState::Failed(failed(Some("States.TaskFailed"))));
    let (state, action) = advance(RunState::Running, &report("FAILED"), 5);
    assert_eq!(state, RunState::Failed(failed(None)));
    assert_eq!(action, PollAction::Fail(failed(None)));
    assert_eq!(failed(None).message(), "Execution failed: arn:aws:states:run-1");
}

#[test]
fn await_fails_at_once_on_an_unknown_status() {
    let reports = vec![report("TIMED_OUT"), report("RUNNING"), report("SUCCEEDED")];
    let outcome = wait_for_completion(&reports, 5);
    assert_eq!(outcome.sleeps, 0);
    assert_eq!(outcome.state, RunState::Failed(unexpected("TIMED_OUT")));
    assert_eq!(unexpected("TIMED_OUT").message(), "Unexpected status: TIMED_OUT for arn:aws:states:run-1");
}

#[test]
fn await_without_a_settling_report_goes_on() {
    assert_eq!(wait_for_completion(&[], 5).state, RunState::Started);
    assert_eq!(wait_for_completion(&[], 5).sleeps, 0);
    let still = wait_for_completion(&[report("RUNNING"), report("RUNNING")], 5);
    assert_eq!(still.sleeps, 2);
    assert_eq!(still.state, RunState::Running);
    assert!(!still.state.is_settled());
}

#[test]
fn settled_run_stays_settled() {
    let (state, action) = advance(RunState::Succeeded, &report("FAILED"), 5);
    assert_eq!(state, RunState::Succeeded);
    assert_eq!(action, PollAction::Finish);
    let (state, action) = advance(RunState::Failed(unexpected("ABORTED")), &report("SUCCEEDED"), 5);
    assert_eq!(state, RunState::Failed(unexpected("ABORTED")));
    assert_eq!(action, PollAction::Fail(unexpected("ABORTED")));
}

#[test]
fn status_names() {
    assert_eq!(RunStatus::from_name("RUNNING"), RunStatus::Running);
    assert_eq!(RunStatus::from_name("SUCCEEDED"), RunStatus::Succeeded);
    assert_eq!(RunStatus::from_name("FAILED"), RunStatus::Failed);
    assert_eq!(RunStatus::from_name("Running"), RunStatus::Other("Running".to_string()));
    assert_eq!(RunStatus::from_name(""), RunStatus::Other(String::new()));
    assert_eq!(POLLING_INTERVAL, 5);
}

#[test]
fn resolve_by_key_returns_the_second_of_three() {
    let runs = vec![
        run("arn:1", Some(r#"{"bucket":"b1","key":"other.wav","languageCode":"en-US"}"#)),
        run("arn:2", Some(r#"{"bucket":"b1","key":"meeting.wav","languageCode":"en-US"}"#)),
        run("arn:3", Some(r#"{"bucket":"b1","key":"third.wav","languageCode":"en-US"}"#)),
    ];
    assert_eq!(find_execution(&runs, "meeting.wav"), Ok("arn:2".to_string()));
}

#[test]
fn resolve_by_key_takes_the_first_match() {
    let runs = vec![
        run("arn:1", None),
        run("arn:2", Some("not json")),
        run("arn:3", Some(r#"{"key":"a.wav"}"#)),
        run("arn:4", Some(r#"{"key":"a.wav"}"#)),
    ];
    assert_eq!(find_execution(&runs, "a.wav"), Ok("arn:3".to_string()));
}

#[test]
fn resolve_by_key_without_a_match() {
    let runs = vec![run("arn:1", Some(r#"{"key":"a.wav"}"#)), run("arn:2", None)];
    let missing = find_execution(&runs, "b.wav").unwrap_err();
    assert_eq!(missing, ClientError::NoExecutionFound("b.wav".to_string()));
    assert_eq!(missing.message(), "No execution found for file: b.wav");
    assert_eq!(find_execution(&[], "b.wav"), Err(ClientError::NoExecutionFound("b.wav".to_string())));
}

#[test]
fn input_names_its_key_only_as_a_string_member() {
    assert!(input_matches(r#"{"key":"a.wav"}"#, "a.wav"));
    assert!(input_matches(r#" { "x": 1, "key" : "a.wav" } "#, "a.wav"));
    assert!(!input_matches(r#"{"key":"a.wav"}"#, "a.wa"));
    assert!(!input_matches(r#"{"Key":"a.wav"}"#, "a.wav"));
    assert!(!input_matches(r#"{"key":["a.wav"]}"#, "a.wav"));
    assert!(!input_matches(r#"{"key":7}"#, "7"));
    assert!(!input_matches(r#"["key","a.wav"]"#, "a.wav"));
    assert!(!input_matches(r#""a.wav""#, "a.wav"));
    assert!(!input_matches("", ""));
    assert!(!input_matches(r#"{"key":"a.wav""#, "a.wav"));
    assert!(input_matches(r#"{"key":"caf\u00e9 \"1\".wav"}"#, "caf\u{e9} \"1\".wav"));
    let doc = Json::Object(vec![("key".to_string(), Json::Text("k".to_string()))]);
    assert!(document_names_key(&doc, "k"));
    assert!(!document_names_key(&Json::Text("k".to_string()), "k"));
}

#[test]
fn scan_describes_one_run_after_the_other() {
    assert_eq!(scan_begin(0), ScanStep::NotFound);
    assert_eq!(scan_begin(3), ScanStep::Describe(0));
    assert_eq!(scan_step(3, 0, None, "k"), ScanStep::Describe(1));
    assert_eq!(scan_step(3, 1, Some("{}"), "k"), ScanStep::Describe(2));
    assert_eq!(scan_step(3, 2, Some("nonsense"), "k"), ScanStep::NotFound);
    assert_eq!(scan_step(3, 1, Some(r#"{"key":"k"}"#), "k"), ScanStep::Found(1));
    assert_eq!(scan_step(3, 2, Some(r#"{"key":"k"}"#), "k"), ScanStep::Found(2));
    assert_eq!(scan_step(1, usize::MAX, None, "k"), ScanStep::NotFound);
}

#[test]
fn report_is_unquoted_and_unescaped() {
    let raw = br#""line1\nline2""#;
    assert_eq!(raw.len(), 14);
    assert_eq!(decode_report("b1", "k", raw).unwrap(), "line1\nline2");
}

#[test]
fn report_escapes() {
    assert_eq!(decode_report("b1", "k", br#""say \"hi\"\n""#).unwrap(), "say \"hi\"\n");
    assert_eq!(decode_report("b1", "k", br#"no quotes\n"#).unwrap(), "no quotes\n");
    assert_eq!(decode_report("b1", "k", br#""only one"#).unwrap(), "only one");
    assert_eq!(decode_report("b1", "k", br#"""twice"""#).unwrap(), "\"twice\"");
    assert_eq!(decode_report("b1", "k", br#""""#).unwrap(), "");
    assert_eq!(decode_report("b1", "k", br#"""#).unwrap(), "");
    assert_eq!(decode_report("b1", "k", b"").unwrap(), "");
    assert_eq!(decode_report("b1", "k", br#""a\\nb\tc\""#).unwrap(), "a\\\nb\\tc\\");
    assert_eq!(decode_report("b1", "k", br#""tail\""#).unwrap(), "tail\\");
    assert_eq!(decode_report("b1", "k", "\"\u{e9}t\u{e9}\\n\u{1F60A}\"".as_bytes()).unwrap(), "\u{e9}t\u{e9}\n\u{1F60A}");
    let chars: Vec<char> = r#"a\nb\"c\"#.chars().collect();
    assert_eq!(unescape(&chars), "a\nb\"c\\");
}

#[test]
fn report_that_is_not_utf8() {
    assert_eq!(decode_report("b1", "k", &[b'"', 0xff, b'"']), Err(ClientError::InvalidReportEncoding { bucket: "b1".to_string(), key: "k".to_string() }));
    assert_eq!(decode_report("b1", "k", &[0xc3]), Err(ClientError::InvalidReportEncoding { bucket: "b1".to_string(), key: "k".to_string() }));
    assert_eq!(decode_report("b1", "k", &[0xed, 0xa0, 0x80]), Err(ClientError::InvalidReportEncoding { bucket: "b1".to_string(), key: "k".to_string() }));
    assert_eq!(decode_report("b1", "k", &[0xc0, 0x80]), Err(ClientError::InvalidReportEncoding { bucket: "b1".to_string(), key: "k".to_string() }));
    assert_eq!(decode_report("b1", "k", &[0xf4, 0x90, 0x80, 0x80]), Err(ClientError::InvalidReportEncoding { bucket: "b1".to_string(), key: "k".to_string() }));
    assert_eq!(decode_report("b1", "k", &[0xf4, 0x8f, 0xbf, 0xbf]).unwrap(), "\u{10ffff}");
    assert_eq!(
        ClientError::InvalidReportEncoding { bucket: "b1".to_string(), key: "k".to_string() }.message(),
        "Invalid report encoding: b1/k"
    );
}

#[test]
fn transcript_is_dug_out_of_the_document() {
    let content = br#"{"jobName":"j","results":{"transcripts":[{"transcript":"Hello there."},{"transcript":"second"}],"items":[]}}"#;
    assert_eq!(decode_transcript("b1", "k", content).unwrap(), "Hello there.");
}

#[test]
fn transcript_of_another_shape() {
    for content in [
        r#"{}"#,
        r#"{"results":{}}"#,
        r#"{"results":{"transcripts":[]}}"#,
        r#"{"results":{"transcripts":{"0":{"transcript":"x"}}}}"#,
        r#"{"results":{"transcripts":[{"transcript":7}]}}"#,
        r#"{"results":{"transcripts":[{"Transcript":"x"}]}}"#,
        r#"{"results":[{"transcripts":[{"transcript":"x"}]}]}"#,
        r#"[]"#,
        r#"null"#,
    ] {
        assert_eq!(
            decode_transcript("b1", "k", content.as_bytes()),
            Err(ClientError::InvalidTranscriptFormat { bucket: "b1".to_string(), key: "k".to_string() }),
            "{}",
            content
        );
    }
    assert_eq!(
        ClientError::InvalidTranscriptFormat { bucket: "b1".to_string(), key: "k".to_string() }.message(),
        "Invalid transcript format: b1/k"
    );
}

#[test]
fn transcript_that_is_no_json() {
    for content in [&b""[..], b"{", b"{} {}", &[b'"', 0xff, b'"']] {
        assert!(matches!(decode_transcript("b1", "k", content), Err(ClientError::MalformedJson { .. })));
    }
    let fault = decode_transcript("b1", "meeting.wav-transcript.json", b"{\"results\":").unwrap_err();
    assert_eq!(
        fault,
        ClientError::MalformedJson {
            bucket: "b1".to_string(),
            key: "meeting.wav-transcript.json".to_string(),
            detail: "EOF while parsing a value at line 1 column 11".to_string(),
        }
    );
    assert_eq!(
        fault.message(),
        "Invalid JSON in b1/meeting.wav-transcript.json: EOF while parsing a value at line 1 column 11"
    );
}

#[test]
fn transcript_from_a_document_at_hand() {
    let doc = Json::Object(vec![(
        "results".to_string(),
        Json::Object(vec![(
            "transcripts".to_string(),
            Json::Array(vec![Json::Object(vec![("transcript".to_string(), Json::Text("t".to_string()))])]),
        )]),
    )]);
    assert_eq!(transcript_of(&doc), Some("t"));
    assert_eq!(transcript_of(&Json::Null), None);
}

#[test]
fn json_documents_are_read_as_plain_values() {
    assert_eq!(parse(b"null"), Ok(Json::Null));
    assert_eq!(parse(b" true "), Ok(Json::Bool(true)));
    assert_eq!(parse(b"-12"), Ok(Json::Number("-12".to_string())));
    assert_eq!(parse(b"1.5"), Ok(Json::Number("1.5".to_string())));
    assert_eq!(parse(br#""a\nb""#), Ok(Json::Text("a\nb".to_string())));
    assert_eq!(
        parse(br#"{"b":[1,{"c":null}],"a":"x"}"#),
        Ok(Json::Object(vec![
            ("a".to_string(), Json::Text("x".to_string())),
            (
                "b".to_string(),
                Json::Array(vec![
                    Json::Number("1".to_string()),
                    Json::Object(vec![("c".to_string(), Json::Null)]),
                ])
            ),
        ]))
    );
    assert_eq!(parse(b"nul"), Err("EOF while parsing a value at line 1 column 3".to_string()));
    assert_eq!(parse(b"nulx"), Err("expected ident at line 1 column 4".to_string()));
    assert!(parse(b"").is_err());
}

#[test]
fn json_accessors() {
    let doc = parse(br#"{"list":["x","y"],"n":1}"#).unwrap();
    let list = doc.member("list").unwrap();
    assert_eq!(list.element(1).and_then(|e| e.as_text()), Some("y"));
    assert_eq!(list.element(2), None);
    assert_eq!(list.member("0"), None);
    assert_eq!(doc.element(0), None);
    assert_eq!(doc.member("missing"), None);
    assert_eq!(doc.member("n").unwrap().as_text(), None);
    assert_eq!(doc.as_text(), None);
}

#[test]
fn json_string_literals() {
    assert_eq!(quote("plain"), "\"plain\"");
    assert_eq!(quote("a\"b\\c\n"), r#""a\"b\\c\n""#);
    assert_eq!(quote(""), "\"\"");
    assert_eq!(quote("\u{1}\u{e9}"), "\"\\u0001\u{e9}\"");
    assert_eq!(quote("\u{8}\t\n\u{b}\u{c}\r\u{1f} \u{7f}/"), "\"\\b\\t\\n\\u000b\\f\\r\\u001f \u{7f}/\"");
    assert_eq!(quote("\0\u{10}\u{1a}\u{1F60A}"), "\"\\u0000\\u0010\\u001a\u{1F60A}\"");
}

#[test]
fn storage_key_is_the_file_name() {
    assert_eq!(storage_key("meeting.wav"), Ok("meeting.wav".to_string()));
    assert_eq!(storage_key("recordings/2024/meeting.wav"), Ok("meeting.wav".to_string()));
    assert_eq!(storage_key("/tmp/meeting.wav"), Ok("meeting.wav".to_string()));
    assert_eq!(storage_key("recordings/meeting.wav/"), Ok("meeting.wav".to_string()));
    assert_eq!(storage_key("a b.c d"), Ok("a b.c d".to_string()));
    assert_eq!(storage_key("...").unwrap(), "...");
    assert_eq!(storage_key(""), Err(ClientError::InvalidFilename(String::new())));
    assert_eq!(storage_key("/"), Err(ClientError::InvalidFilename("/".to_string())));
    assert_eq!(storage_key("."), Err(ClientError::InvalidFilename(".".to_string())));
    assert_eq!(storage_key("recordings/.."), Err(ClientError::InvalidFilename("recordings/..".to_string())));
    assert_eq!(key_of("p/k", Some("k".to_string())), Ok("k".to_string()));
    assert_eq!(key_of("p", None), Err(ClientError::InvalidFilename("p".to_string())));
    assert_eq!(key_of("p", Some(String::new())), Err(ClientError::InvalidFilename("p".to_string())));
    assert_eq!(key_of("p", Some("a/b.wav".to_string())), Err(ClientError::InvalidFilename("p".to_string())));
    assert_eq!(key_of("p", Some("a\\b.wav".to_string())), Ok("a\\b.wav".to_string()));
    assert!(holds_slash("a/b"));
    assert!(holds_slash("/"));
    assert!(!holds_slash("a\\b.wav"));
    assert!(!holds_slash(""));
    assert_eq!(storage_key("./meeting.wav"), Ok("meeting.wav".to_string()));
    assert_eq!(storage_key("a//b/../c.d"), Ok("c.d".to_string()));
    assert_eq!(storage_key("rec/..hidden"), Ok("..hidden".to_string()));
    assert_eq!(ClientError::InvalidFilename("a/..".to_string()).message(), "Invalid filename: a/..");
}

#[test]
fn start_input_names_bucket_key_and_language() {
    assert_eq!(
        start_input("b1", "meeting.wav", None),
        r#"{"bucket":"b1","key":"meeting.wav","languageCode":"en-US"}"#
    );
    assert_eq!(
        start_input("b1", "meeting.wav", Some("de-DE")),
        r#"{"bucket":"b1","key":"meeting.wav","languageCode":"de-DE"}"#
    );
    assert_eq!(
        start_input("b\"1", "a\\b\n.wav", Some("")),
        r#"{"bucket":"b\"1","key":"a\\b\n.wav","languageCode":""}"#
    );
    assert_eq!(DEFAULT_LANGUAGE, "en-US");
    assert_eq!(input_document("1", "2", "3"), r#"{"bucket":1,"key":2,"languageCode":3}"#);
}

#[test]
fn start_input_is_read_back_by_the_lookup() {
    let input = start_input("b1", "odd \"name\".wav", None);
    assert!(input_matches(&input, "odd \"name\".wav"));
    assert!(!input_matches(&input, "b1"));
}

#[test]
fn end_to_end_meeting() {
    let submission = process_file("b1", "meeting.wav", true, None).unwrap();
    assert_eq!(submission.bucket, "b1");
    assert_eq!(submission.key, "meeting.wav");
    assert_eq!(submission.input, r#"{"bucket":"b1","key":"meeting.wav","languageCode":"en-US"}"#);
    let runs = vec![run(RUN, Some(&submission.input))];
    assert_eq!(find_execution(&runs, &submission.key), Ok(RUN.to_string()));
    let outcome = wait_for_completion(&[report("RUNNING"), report("SUCCEEDED")], POLLING_INTERVAL);
    assert_eq!(outcome.state, RunState::Succeeded);
    assert_eq!(transcript_key(&submission.key), "meeting.wav-transcript.json");
    assert_eq!(report_key(&submission.key), "meeting.wav-report.md");
}

#[test]
fn submission_from_a_directory() {
    let submission = process_file("b1", "recordings/2024/meeting.wav", true, Some("fr-FR")).unwrap();
    assert_eq!(submission.key, "meeting.wav");
    assert_eq!(submission.input, r#"{"bucket":"b1","key":"meeting.wav","languageCode":"fr-FR"}"#);
}

#[test]
fn submission_of_a_path_without_a_file_name() {
    assert_eq!(process_file("b1", "..", true, None), Err(ClientError::InvalidFilename("..".to_string())));
    assert_eq!(process_file("b1", "", true, Some("en-GB")), Err(ClientError::InvalidFilename(String::new())));
}

#[test]
fn submission_of_a_file_that_is_not_there() {
    let missing = process_file("b1", "gone/meeting.wav", false, None).unwrap_err();
    assert_eq!(missing, ClientError::FileMissing("gone/meeting.wav".to_string()));
    assert_eq!(missing.message(), "File does not exist: gone/meeting.wav");
    assert_eq!(process_file("b1", "..", false, None), Err(ClientError::FileMissing("..".to_string())));
}

#[test]
fn artifact_keys_are_the_key_and_a_suffix() {
    assert_eq!(transcript_key("meeting.wav"), "meeting.wav-transcript.json");
    assert_eq!(report_key("meeting.wav"), "meeting.wav-report.md");
    assert_eq!(transcript_key("uploads/meeting.wav"), "uploads/meeting.wav-transcript.json");
    assert_eq!(report_key(""), "-report.md");
    assert_eq!(artifact_key("a", "-x"), "a-x");
    assert_eq!(TRANSCRIPT_SUFFIX, "-transcript.json");
    assert_eq!(REPORT_SUFFIX, "-report.md");
}

#[test]
fn long_identifiers_are_shortened() {
    let arn = "arn:aws:states:us-east-1:123456789012:execution:AudioProcessingPipeline:0a1b2c3d";
    assert!(check_truncate(arn));
    assert_eq!(truncate_arn(arn), "arn:aws:states:us-east-1:...ssingPipeline:0a1b2c3d");
    assert_eq!(truncate_arn(arn).len(), 50);
    let fifty = "x".repeat(50);
    assert_eq!(truncate_arn(&fifty), fifty);
    let fifty_one = format!("{}{}", "a".repeat(29), "b".repeat(22));
    assert_eq!(truncate_arn(&fifty_one), format!("{}...{}", "a".repeat(25), "b".repeat(22)));
    assert_eq!(truncate_arn(""), "");
}

#[test]
fn identifiers_are_cut_between_characters_only() {
    let inside = format!("{}\u{e9}{}", "a".repeat(24), "b".repeat(30));
    assert!(!check_truncate(&inside));
    let fine = format!("{}\u{e9}{}", "a".repeat(23), "b".repeat(30));
    assert!(check_truncate(&fine));
    assert_eq!(truncate_arn(&fine), format!("{}\u{e9}...{}", "a".repeat(23), "b".repeat(22)));
    let short = "\u{e9}".repeat(25);
    assert!(check_truncate(&short));
    assert_eq!(truncate_arn(&short), short);
}

#[test]
fn status_report_rows() {
    let rows = status_rows("b1", "meeting.wav", "RUNNING", "arn:short");
    assert_eq!(
        rows,
        vec![
            ("File:".to_string(), "meeting.wav".to_string()),
            ("Bucket:".to_string(), "b1".to_string()),
            ("Status:".to_string(), "RUNNING".to_string()),
            ("Execution:".to_string(), "arn:short".to_string()),
        ]
    );
}

#[test]
fn every_error_has_its_message() {
    let malformed = ClientError::MalformedJson { bucket: "b".to_string(), key: "k".to_string(), detail: "x".to_string() };
    assert_eq!(malformed.message(), "Invalid JSON in b/k: x");
    assert_eq!(malformed.duplicate(), malformed);
    let copy = ClientError::NoExecutionFound("k".to_string()).duplicate();
    assert_eq!(copy, ClientError::NoExecutionFound("k".to_string()));
    let transport = ClientError::Transport { operation: "upload file".to_string(), detail: "timeout".to_string() };
    assert_eq!(transport.message(), "Failed to upload file: timeout");
    assert_eq!(transport.duplicate(), transport);
    let absent = ClientError::ArtifactNotFound { bucket: "b1".to_string(), key: "meeting.wav-report.md".to_string() };
    assert_eq!(absent.message(), "No object found: b1/meeting.wav-report.md");
    assert_eq!(absent.duplicate(), absent);
    assert_eq!(failed(Some("e")).duplicate(), failed(Some("e")));
    assert_eq!(unexpected("s").duplicate(), unexpected("s"));
}
