use picasso::repl::{build_repl, ReplAction, ReplEvent};

#[test]
fn prompts_are_numbered() {
    let mut r = build_repl(false);
    assert_eq!(r.next_line(), 1);
    assert_eq!(r.next_line(), 2);
    assert!(!r.debug);
}

#[test]
fn events_decide_what_happens() {
    let r = build_repl(true);
    assert!(matches!(r.handle(ReplEvent::Line("1".to_string())), ReplAction::Run(l) if l == "1"));
    assert!(matches!(r.handle(ReplEvent::Interrupted), ReplAction::Stop(m) if m == "CTRL-C"));
    assert!(matches!(r.handle(ReplEvent::Eof), ReplAction::Stop(m) if m == "CTRL-D"));
    assert!(matches!(r.handle(ReplEvent::Failed("x".to_string())), ReplAction::Stop(m) if m == "Error: x"));
}
