//! The dialogue with an engine.

use uci_grabber::error::Error;
use uci_grabber::uci::{
    strip_line_end, valid_starting_move, validate_engine, Dialogue, EngineEvent, OutputReader,
    Reply, Stage, UciIdentity, ValidationTimeouts,
};

fn line(text: &str) -> EngineEvent {
    EngineEvent::Line(text.into())
}

fn commands(texts: &[&str]) -> Reply {
    Reply::Send(texts.iter().map(|text| (*text).to_owned()).collect())
}

#[test]
fn validates_coordinate_moves() {
    assert!(valid_starting_move("e2e4"));
    assert!(valid_starting_move("g1f3"));
    assert!(!valid_starting_move("e2e5"));
    assert!(!valid_starting_move("a7a8q"));
    assert!(!valid_starting_move("(none)"));
}

#[test]
fn rejects_unbounded_engine_lines() {
    let bytes = vec![b'x'; 16 * 1024 + 1];
    let mut reader = OutputReader::new();
    assert!(matches!(reader.accept(&bytes), EngineEvent::Rejected(_)));
}

#[test]
fn rejects_engines_that_print_too_much() {
    let bytes = vec![b'x'; 16 * 1024];
    let mut reader = OutputReader::new();
    for _ in 0..256 {
        assert!(matches!(reader.accept(&bytes), EngineEvent::Line(_)));
    }
    assert_eq!(
        reader.accept(b"x"),
        EngineEvent::Rejected("engine emitted more than 4 MiB during validation".into()),
    );
}

#[test]
fn lines_lose_their_ends_and_bad_bytes() {
    let mut reader = OutputReader::new();
    assert_eq!(reader.accept(b"uciok\r\n"), line("uciok"));
    assert_eq!(reader.accept(b"id name \xff\n"), line("id name \u{fffd}"));
    assert_eq!(strip_line_end(b"a\n\r\n"), b"a");
    assert_eq!(strip_line_end(b"\n"), b"");
}

#[test]
fn answers_count_only_in_their_order() {
    let events = vec![
        line("readyok"),
        line("bestmove e2e4"),
        line("uciok"),
        line("bestmove e2e4"),
        EngineEvent::TimedOut,
    ];
    assert_eq!(
        validate_engine(&events),
        Some(Err(Error::UciValidation("timed out waiting for readyok".into()))),
    );
    let events = vec![line("uciok"), line("readyok"), line("bestmove g1f3"), EngineEvent::Exited];
    let accepted = validate_engine(&events).unwrap().unwrap_or_else(|_| unreachable!());
    assert_eq!(accepted.bestmove, "g1f3");
}

#[test]
fn an_engine_that_answers_everything_is_accepted() {
    let (mut dialogue, first) = Dialogue::begin();
    assert_eq!(first, "uci");
    let timeouts = ValidationTimeouts::default();
    assert_eq!(dialogue.timeout(&timeouts), 10_000_000_000);
    assert_eq!(dialogue.step(&line("id name  Fixture Engine ")), Reply::Wait);
    assert_eq!(dialogue.step(&line("id author Somebody")), Reply::Wait);
    assert_eq!(dialogue.step(&line("option name Hash type spin")), Reply::Wait);
    assert_eq!(dialogue.step(&line("uciok")), commands(&["isready"]));
    assert_eq!(dialogue.timeout(&timeouts), 600_000_000_000);
    assert_eq!(
        dialogue.step(&line(" readyok ")),
        commands(&["ucinewgame", "position startpos", "go depth 1"]),
    );
    assert_eq!(dialogue.timeout(&timeouts), 15_000_000_000);
    assert_eq!(dialogue.step(&line("info depth 1")), Reply::Wait);
    assert_eq!(dialogue.step(&line("bestmove e2e4 ponder e7e5")), commands(&["quit"]));
    assert_eq!(dialogue.stage(), Stage::Exit);
    assert_eq!(dialogue.timeout(&timeouts), 2_000_000_000);
    assert_eq!(
        dialogue.step(&EngineEvent::Exited),
        Reply::Done(UciIdentity {
            name: Some("Fixture Engine".into()),
            author: Some("Somebody".into()),
            bestmove: "e2e4".into(),
        }),
    );
}

#[test]
fn engines_fail_in_their_ways() {
    let complaint = |events: Vec<EngineEvent>| match validate_engine(&events) {
        Some(Err(Error::UciValidation(text))) => text,
        other => panic!("{other:?}"),
    };
    assert_eq!(complaint(vec![EngineEvent::TimedOut]), "timed out waiting for uciok");
    assert_eq!(
        complaint(vec![line("uciok"), EngineEvent::Exited]),
        "engine exited before readyok",
    );
    assert_eq!(
        complaint(vec![line("uciok"), line("readyok"), line("bestmove (none)")]),
        "engine returned invalid bestmove `(none)`",
    );
    assert_eq!(
        complaint(vec![line("uciok"), line("readyok"), line("bestmove ")]),
        "engine returned invalid bestmove ``",
    );
    assert_eq!(
        complaint(vec![
            line("uciok"),
            line("readyok"),
            line("bestmove g1f3"),
            EngineEvent::TimedOut,
        ]),
        "engine did not exit after quit",
    );
    assert_eq!(complaint(vec![EngineEvent::Rejected("too long".into())]), "too long");
    assert_eq!(validate_engine(&vec![line("uciok")]), None);
}

#[test]
fn cancelling_interrupts_any_wait() {
    for prefix in [vec![], vec![line("uciok")], vec![line("uciok"), line("readyok")]] {
        let mut events = prefix;
        events.push(EngineEvent::Cancelled);
        assert_eq!(validate_engine(&events), Some(Err(Error::Cancelled)));
    }
}
