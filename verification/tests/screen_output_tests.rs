use wordsling::screen_transfer::ScreenTransfer;
use wordsling::screen_typer::{type_text_plan, typer_actions, TypeAction};
use wordsling::screen_writer::{Debouncer, PasteBuffer, WriterAction};

fn set(s: &str) -> WriterAction {
    WriterAction::SetClipboard(s.to_string())
}

#[test]
fn paste_buffer_first_text_waits_for_the_clipboard() {
    let mut pb = PasteBuffer::new();
    let step = pb.push_text("abc", 1000);
    assert_eq!(step.actions, vec![set("abc")]);
    assert_eq!(step.timeout_ms, Some(20));
    assert!(!step.record_time);
    assert_eq!(pb.recv_timeout(1000), Some(0));
}

#[test]
fn paste_buffer_coalesces_fragments_and_respects_cooldown() {
    let mut pb = PasteBuffer::new();
    pb.record_interaction(1000);
    let step = pb.push_text("ab", 1030);
    assert_eq!(step.actions, vec![set("ab")]);
    assert_eq!(step.timeout_ms, Some(70));
    let step = pb.push_text("c", 1090);
    assert_eq!(step.actions, vec![set("abc")]);
    assert_eq!(step.timeout_ms, Some(20));
    let step = pb.flush(1095);
    assert_eq!(step.actions, vec![WriterAction::Wait(5), WriterAction::Paste]);
    assert!(step.record_time);
    assert_eq!(step.timeout_ms, None);
    assert!(pb.text_buf.is_empty());
    assert_eq!(pb.recv_timeout(1095), None);
}

#[test]
fn paste_buffer_backspaces_eat_pending_text_first() {
    let mut pb = PasteBuffer::new();
    pb.push_text("hello", 0);
    let step = pb.apply_backspaces(2, 0);
    assert_eq!(step.actions, vec![set("hel")]);
    assert_eq!(pb.text_buf, vec!['h', 'e', 'l']);
    let step = pb.apply_backspaces(3, 0);
    assert!(step.actions.is_empty());
    assert_eq!(step.timeout_ms, None);
}

#[test]
fn paste_buffer_real_backspaces_after_cooldown() {
    let mut pb = PasteBuffer::new();
    pb.record_interaction(500);
    pb.push_text("ab", 540);
    let step = pb.apply_backspaces(5, 560);
    assert_eq!(
        step.actions,
        vec![WriterAction::Wait(40), WriterAction::Backspaces { count: 3, delay_ms: 10 }]
    );
    assert!(step.record_time);
    assert!(pb.text_buf.is_empty());
}

#[test]
fn paste_buffer_flush_of_nothing_does_nothing() {
    let mut pb = PasteBuffer::new();
    let step = pb.flush(7);
    assert!(step.actions.is_empty());
    assert!(!step.record_time);
}

#[test]
fn debouncer_session_saves_and_restores_clipboard() {
    let mut d = Debouncer::new();
    assert!(d.capture_needed("привет"));
    let step = d.push_text("привет", Some("мой буфер".to_string()), 0);
    assert_eq!(step.actions, vec![set("привет")]);
    assert_eq!(d.saved_clipboard, Some("мой буфер".to_string()));
    assert!(!d.capture_needed(" мир"));

    let step = d.flush(10);
    assert_eq!(step.actions, vec![WriterAction::Paste]);
    assert_eq!(step.timeout_ms, Some(100));
    d.record_interaction(10);

    // Nothing pending: the session ends after the remaining cooldown.
    let step = d.flush(60);
    assert_eq!(
        step.actions,
        vec![WriterAction::Wait(50), WriterAction::RestoreClipboard("мой буфер".to_string())]
    );
    assert_eq!(d.saved_clipboard, None);
    assert_eq!(d.recv_timeout(60), None);
}

#[test]
fn debouncer_unreadable_clipboard_is_not_restored() {
    let mut d = Debouncer::new();
    d.push_text("x", None, 0);
    assert_eq!(d.saved_clipboard, Some(String::new()));
    let step = d.apply_backspaces(4, 0);
    assert_eq!(step.actions, vec![WriterAction::Backspaces { count: 3, delay_ms: 0 }]);
    assert_eq!(d.saved_clipboard, None);
}

#[test]
fn debouncer_emptied_buffer_waits_before_ending_session() {
    let mut d = Debouncer::new();
    d.record_interaction(100);
    d.push_text("ab", Some("saved".to_string()), 130);
    let step = d.apply_backspaces(2, 150);
    assert!(step.actions.is_empty());
    assert_eq!(step.timeout_ms, Some(50));
    assert_eq!(d.saved_clipboard, Some("saved".to_string()));
}

#[test]
fn debouncer_real_backspaces_end_session() {
    let mut d = Debouncer::new();
    d.push_text("ab", Some("saved".to_string()), 0);
    let step = d.apply_backspaces(3, 0);
    assert_eq!(
        step.actions,
        vec![
            WriterAction::Backspaces { count: 1, delay_ms: 0 },
            WriterAction::RestoreClipboard("saved".to_string())
        ]
    );
    assert!(step.record_time);
}

#[test]
fn debouncer_empty_fragment_into_empty_buffer_is_ignored() {
    let mut d = Debouncer::new();
    assert!(!d.capture_needed(""));
    let step = d.push_text("", None, 0);
    assert!(step.actions.is_empty());
    assert_eq!(step.timeout_ms, None);
    assert_eq!(d.saved_clipboard, None);
}

#[test]
fn typer_splits_line_breaks() {
    let plan = type_text_plan("ab\n\ncd\n");
    assert_eq!(
        plan,
        vec![
            TypeAction::TypeUnicode("ab".to_string()),
            TypeAction::Enter,
            TypeAction::Enter,
            TypeAction::TypeUnicode("cd".to_string()),
            TypeAction::Enter,
        ]
    );
    assert!(type_text_plan("").is_empty());
}

#[test]
fn typer_actions_for_transfers() {
    assert!(typer_actions(&ScreenTransfer::Text(String::new())).is_empty());
    assert!(typer_actions(&ScreenTransfer::Backspace(0)).is_empty());
    assert_eq!(
        typer_actions(&ScreenTransfer::Backspace(3)),
        vec![TypeAction::SuppressTracking(150), TypeAction::Backspaces(3)]
    );
    assert_eq!(
        typer_actions(&ScreenTransfer::Text("да\n".to_string())),
        vec![
            TypeAction::SuppressTracking(150),
            TypeAction::TypeUnicode("да".to_string()),
            TypeAction::Enter
        ]
    );
}
