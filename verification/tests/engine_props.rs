use ssccpp::{EngineState, LineAction, Parser};

fn run(parser: &Parser, input: &[u8]) -> Vec<u8> {
    let mut out: Vec<u8> = Vec::new();
    parser.process(input, &mut out);
    out
}

#[test]
fn content_lines_classify_as_process() {
    let parser = Parser::new("thisone", ">>>").unwrap();
    assert_eq!(parser.classify(b"plain text"), LineAction::Process);
    assert_eq!(parser.classify(b""), LineAction::Process);
    assert_eq!(parser.classify(b"XXX>>> not at start"), LineAction::Process);
    assert_eq!(parser.classify(b"thisone"), LineAction::Process);
}

#[test]
fn directive_classification_kinds() {
    let parser = Parser::new("thisone", ">>>").unwrap();
    assert_eq!(parser.classify(b">>>"), LineAction::EnterGeneral);
    assert_eq!(parser.classify(b"  >>>   "), LineAction::EnterGeneral);
    assert_eq!(parser.classify(b">>> *"), LineAction::EnterOtherwise);
    assert_eq!(parser.classify(b">>> a,*,b"), LineAction::EnterOtherwise);
    assert_eq!(parser.classify(b">>> thisone"), LineAction::EnterSpecific);
    assert_eq!(parser.classify(b"\t>>>thisone"), LineAction::EnterSpecific);
    assert_eq!(parser.classify(b">>> other"), LineAction::EnterIgnore);
    assert_eq!(parser.classify(b">>> thisonebig"), LineAction::EnterIgnore);
    assert_eq!(parser.classify(b">>> bigthisone"), LineAction::EnterIgnore);
    assert_eq!(parser.classify(b">>> a*b"), LineAction::EnterIgnore);
}

#[test]
fn star_takes_priority_over_identifier() {
    let parser = Parser::new("thisone", ">>>").unwrap();
    assert_eq!(parser.classify(b">>> thisone *"), LineAction::EnterOtherwise);
    assert_eq!(parser.classify(b">>> *, thisone"), LineAction::EnterOtherwise);
}

#[test]
fn whole_word_match_in_case_list() {
    let parser = Parser::new("thisone", ">>>").unwrap();
    assert_eq!(
        parser.classify(b">>> another, thisone, andanother"),
        LineAction::EnterSpecific
    );
    assert_eq!(
        parser.classify(b">>> another,thisone,andanother"),
        LineAction::EnterSpecific
    );
}

#[test]
fn general_marker_resets_state() {
    // Whatever the state, a general marker restores the initial one.
    let states = [
        EngineState { emit: true, seen_specific: false },
        EngineState { emit: true, seen_specific: true },
        EngineState { emit: false, seen_specific: false },
        EngineState { emit: false, seen_specific: true },
    ];
    for st in states {
        let after = st.step(LineAction::EnterGeneral);
        assert_eq!(after, EngineState::initial());
        assert!(after.emit);
        assert!(!after.seen_specific);
    }
}

#[test]
fn otherwise_marker_negates_seen_specific() {
    let states = [
        EngineState { emit: true, seen_specific: false },
        EngineState { emit: true, seen_specific: true },
        EngineState { emit: false, seen_specific: false },
        EngineState { emit: false, seen_specific: true },
    ];
    for st in states {
        let after = st.step(LineAction::EnterOtherwise);
        assert_eq!(after.emit, !st.seen_specific);
        assert_eq!(after.seen_specific, st.seen_specific);
    }
}

#[test]
fn step_transition_table() {
    let st = EngineState { emit: false, seen_specific: false };
    assert_eq!(st.step(LineAction::Process), st);
    assert_eq!(
        st.step(LineAction::EnterSpecific),
        EngineState { emit: true, seen_specific: true }
    );
    let on = EngineState { emit: true, seen_specific: true };
    assert_eq!(
        on.step(LineAction::EnterIgnore),
        EngineState { emit: false, seen_specific: true }
    );
}

#[test]
fn specific_suppresses_later_otherwise_until_general() {
    // After a matching specific marker, a fallback block is skipped; after
    // the next general marker, the fallback fires again.
    let parser = Parser::new("thisone", ">>>").unwrap();
    let content = b">>> thisone\n\
A\n\
>>> *\n\
B\n\
>>>\n\
>>> *\n\
C\n";
    let out = run(&parser, &content[..]);
    assert_eq!(String::from_utf8(out).unwrap(), "A\nC\n");
}

#[test]
fn processing_twice_gives_identical_output() {
    let parser = Parser::new("thisone", ">>>").unwrap();
    let content = b"1\n>>> other\nXXX\n>>> *\n2\n>>>\n3";
    let first = run(&parser, &content[..]);
    let second = run(&parser, &content[..]);
    assert_eq!(first, second);
}

#[test]
fn input_without_directives_passes_through() {
    let parser = Parser::new("thisone", ">>>").unwrap();
    let content = b"alpha\nbeta\ngamma";
    let out = run(&parser, &content[..]);
    assert_eq!(out.as_slice(), &b"alpha\nbeta\ngamma\n"[..]);
}

#[test]
fn line_endings_are_normalized() {
    let parser = Parser::new("thisone", ">>>").unwrap();
    let content = b"alpha\r\nbeta\r\ngamma\r\n";
    let out = run(&parser, &content[..]);
    assert_eq!(out.as_slice(), &b"alpha\nbeta\ngamma\n"[..]);
}

#[test]
fn final_line_without_feed_keeps_carriage_return() {
    // Only a carriage return directly before a line feed belongs to the
    // terminator; a trailing one on an unterminated final line is content.
    let parser = Parser::new("thisone", ">>>").unwrap();
    let out = run(&parser, &b"alpha\r"[..]);
    assert_eq!(out.as_slice(), &b"alpha\r\n"[..]);
}

#[test]
fn empty_input_gives_empty_output() {
    let parser = Parser::new("thisone", ">>>").unwrap();
    let out = run(&parser, &b""[..]);
    assert!(out.is_empty());
}

#[test]
fn empty_lines_are_content() {
    let parser = Parser::new("thisone", ">>>").unwrap();
    let out = run(&parser, &b"\n\n"[..]);
    assert_eq!(out.as_slice(), &b"\n\n"[..]);
}

#[test]
fn construction_always_succeeds() {
    // Both arguments are literal text; characters special to pattern
    // languages must not break construction or matching.
    assert!(Parser::new("a.b*c", "[[").is_ok());
    let parser = Parser::new("a.b", "[[").unwrap();
    assert_eq!(parser.classify(b"[[ a.b"), LineAction::EnterSpecific);
    assert_eq!(parser.classify(b"[[ axb"), LineAction::EnterIgnore);
}

#[test]
fn delimiter_may_hold_leading_whitespace() {
    // The match consumes as much leading whitespace as still lets the
    // literal follow, so a delimiter starting with a space still matches.
    let parser = Parser::new("rest", " X").unwrap();
    assert_eq!(parser.classify(b"   Xrest"), LineAction::EnterSpecific);
    assert_eq!(parser.classify(b"Xrest"), LineAction::Process);
}

#[test]
fn empty_delimiter_makes_every_line_a_directive() {
    let parser = Parser::new("thisone", "").unwrap();
    assert_eq!(parser.classify(b""), LineAction::EnterGeneral);
    assert_eq!(parser.classify(b"thisone"), LineAction::EnterSpecific);
    assert_eq!(parser.classify(b"stuff"), LineAction::EnterIgnore);
}

#[test]
fn empty_identifier_matches_next_to_any_word_byte() {
    let parser = Parser::new("", ">>>").unwrap();
    assert_eq!(parser.classify(b">>> abc"), LineAction::EnterSpecific);
    assert_eq!(parser.classify(b">>> ,,"), LineAction::EnterIgnore);
}

#[test]
fn default_delimiter_style() {
    let parser = Parser::new("host1", ">>>>>>>>").unwrap();
    let content = b"keep\n>>>>>>>> host2\ndrop\n>>>>>>>>\nkept too";
    let out = run(&parser, &content[..]);
    assert_eq!(String::from_utf8(out).unwrap(), "keep\nkept too\n");
}

#[test]
fn select_returns_kept_lines() {
    let parser = Parser::new("thisone", ">>>").unwrap();
    let lines: Vec<Vec<u8>> = vec![
        b"1".to_vec(),
        b">>> other".to_vec(),
        b"XXX".to_vec(),
        b">>>".to_vec(),
        b"3".to_vec(),
    ];
    let kept = parser.select(&lines);
    assert_eq!(kept, vec![b"1".to_vec(), b"3".to_vec()]);
}

#[test]
fn output_is_appended_to_existing_sink() {
    let parser = Parser::new("thisone", ">>>").unwrap();
    let mut out: Vec<u8> = b"before\n".to_vec();
    parser.process(&b"payload"[..], &mut out);
    assert_eq!(out.as_slice(), &b"before\npayload\n"[..]);
}
