use pane::db::Shortcut;
use pane::expander::{
    keep_last_bytes_exec, paste_steps, reload_shortcuts, Event, EventType, Key, PasteStep, TypeBuffer,
};
use std::path::PathBuf;

fn shortcut(trigger: &str, content: &str) -> Shortcut {
    Shortcut { trigger: trigger.to_string(), content: content.to_string() }
}

fn press(key: Key) -> Event {
    Event { event_type: EventType::KeyPress(key), name: None }
}

fn typed(name: &str) -> Event {
    Event { event_type: EventType::KeyPress(Key::Other), name: Some(name.to_string()) }
}

fn type_text(b: &mut TypeBuffer, text: &str) {
    for c in text.chars() {
        assert_eq!(b.on_event(&typed(&c.to_string())), None);
    }
}

#[test]
fn trigger_completed_by_space_is_reported() {
    let mut b = TypeBuffer::new(PathBuf::from("pane.db"), Ok(vec![shortcut("/greeting", "Hello!")]));
    type_text(&mut b, "say /greeting");
    assert_eq!(b.on_event(&press(Key::Space)), Some((10, "Hello!".to_string())));
    // the buffer was emptied
    assert_eq!(b.on_event(&press(Key::Return)), None);
}

#[test]
fn triggers_match_without_case() {
    let mut b = TypeBuffer::new(PathBuf::new(), Ok(vec![shortcut("/Sig", "Regards")]));
    type_text(&mut b, "/sIG");
    assert_eq!(b.on_event(&press(Key::Return)), Some((5, "Regards".to_string())));
}

#[test]
fn longest_trigger_wins_and_first_wins_a_tie() {
    let mut b = TypeBuffer::new(
        PathBuf::new(),
        Ok(vec![shortcut("ing", "short"), shortcut("/greeting", "long"), shortcut("ING", "other")]),
    );
    type_text(&mut b, "/greeting");
    assert_eq!(b.check_triggers(), Some((10, "long".to_string())));
    type_text(&mut b, "x ing");
    assert_eq!(b.check_triggers(), Some((4, "short".to_string())));
}

#[test]
fn erase_count_is_characters_plus_one() {
    let mut b = TypeBuffer::new(PathBuf::new(), Ok(vec![shortcut("\u{212A}", "kelvin")]));
    // the Kelvin sign lowercases to an ASCII k: one character, plus the space
    type_text(&mut b, "k");
    assert_eq!(b.on_event(&press(Key::Space)), Some((2, "kelvin".to_string())));
}

#[test]
fn backspace_navigation_and_modifiers() {
    let mut b = TypeBuffer::new(PathBuf::new(), Ok(vec![shortcut("ab", "X")]));
    type_text(&mut b, "abc");
    assert_eq!(b.on_event(&press(Key::Backspace)), None);
    assert_eq!(b.check_triggers(), Some((3, "X".to_string())));
    assert_eq!(b.on_event(&press(Key::ShiftLeft)), None);
    assert_eq!(b.check_triggers(), Some((3, "X".to_string())));
    assert_eq!(b.on_event(&press(Key::LeftArrow)), None);
    assert_eq!(b.check_triggers(), None);
    assert_eq!(b.on_event(&press(Key::Backspace)), None);
    assert_eq!(b.check_triggers(), None);
}

#[test]
fn long_key_names_empty_the_buffer() {
    let mut b = TypeBuffer::new(PathBuf::new(), Ok(vec![shortcut("ab", "X")]));
    type_text(&mut b, "ab");
    assert_eq!(b.on_event(&typed("Delete")), None);
    assert_eq!(b.check_triggers(), None);
    type_text(&mut b, "ab");
    assert_eq!(b.on_event(&Event { event_type: EventType::KeyPress(Key::Other), name: None }), None);
    assert_eq!(b.on_event(&Event { event_type: EventType::Other, name: Some("z".to_string()) }), None);
    assert_eq!(b.check_triggers(), Some((3, "X".to_string())));
}

#[test]
fn characters_of_any_width_are_typed() {
    let mut b = TypeBuffer::new(PathBuf::new(), Ok(vec![shortcut("/añ", "año"), shortcut("ab", "X")]));
    type_text(&mut b, "/a");
    assert_eq!(b.on_event(&typed("ñ")), None);
    // erase count: three characters of trigger plus the space
    assert_eq!(b.on_event(&press(Key::Space)), Some((4, "año".to_string())));
    type_text(&mut b, "/AÑ");
    assert_eq!(b.check_triggers(), Some((4, "año".to_string())));
    type_text(&mut b, "ab");
    assert_eq!(b.on_event(&typed("é")), None);
    assert_eq!(b.check_triggers(), None);
    assert_eq!(b.on_event(&press(Key::Backspace)), None);
    assert_eq!(b.check_triggers(), Some((3, "X".to_string())));
}

#[test]
fn buffer_keeps_at_most_a_hundred_bytes() {
    let fifty = "é".repeat(50);
    let fifty_one = "é".repeat(51);
    let mut b = TypeBuffer::new(
        PathBuf::new(),
        Ok(vec![shortcut(&fifty_one, "too long"), shortcut(&format!("a{fifty}"), "no a"), shortcut(&fifty, "fits")]),
    );
    type_text(&mut b, &format!("a{}", "é".repeat(60)));
    assert_eq!(b.check_triggers(), Some((51, "fits".to_string())));
    b.on_event(&press(Key::Escape));
    // 1 + 100 bytes: the leading "a" no longer fits
    type_text(&mut b, &format!("a{fifty}"));
    assert_eq!(b.check_triggers(), Some((51, "fits".to_string())));
}

#[test]
fn buffer_keeps_the_last_hundred_characters() {
    let hundred = "a".repeat(100);
    let hundred_one = "a".repeat(101);
    let mut b = TypeBuffer::new(
        PathBuf::new(),
        Ok(vec![shortcut(&hundred_one, "too long"), shortcut(&hundred, "fits")]),
    );
    type_text(&mut b, &"a".repeat(150));
    assert_eq!(b.check_triggers(), Some((101, "fits".to_string())));
}

#[test]
fn failed_load_gives_no_shortcuts_and_reload_replaces_them() {
    let mut b = TypeBuffer::new(PathBuf::from("x.db"), Err("no table".to_string()));
    assert_eq!(b.db_path(), &PathBuf::from("x.db"));
    type_text(&mut b, "/hi");
    assert_eq!(b.check_triggers(), None);
    b.reload(Ok(vec![shortcut("/hi", "Hello")]));
    assert_eq!(b.check_triggers(), Some((4, "Hello".to_string())));
    let mut handle = Some(b);
    reload_shortcuts(&mut handle, Ok(vec![shortcut("hi", "Hey")]));
    assert_eq!(handle.as_ref().unwrap().check_triggers(), Some((3, "Hey".to_string())));
    let mut none: Option<TypeBuffer> = None;
    reload_shortcuts(&mut none, Ok(vec![]));
    assert!(none.is_none());
}

#[test]
fn load_shortcuts_pairs_trigger_and_content() {
    let pairs = TypeBuffer::load_shortcuts(Ok(vec![shortcut("a", "b"), shortcut("c", "d")]));
    assert_eq!(pairs, vec![("a".to_string(), "b".to_string()), ("c".to_string(), "d".to_string())]);
    assert!(TypeBuffer::load_shortcuts(Err("x".to_string())).is_empty());
}

#[test]
fn paste_restores_the_old_clipboard_text() {
    let steps = paste_steps("Hello!", Some("old".to_string()));
    assert_eq!(steps.len(), 7);
    assert!(matches!(&steps[0], PasteStep::SkipNextChange));
    assert!(matches!(&steps[1], PasteStep::SetText(t) if t == "Hello!"));
    assert!(matches!(&steps[2], PasteStep::Sleep(30)));
    assert!(matches!(&steps[3], PasteStep::PasteCombo));
    assert!(matches!(&steps[4], PasteStep::Sleep(100)));
    assert!(matches!(&steps[5], PasteStep::SkipNextChange));
    assert!(matches!(&steps[6], PasteStep::SetText(t) if t == "old"));
}

#[test]
fn paste_without_old_text_restores_nothing() {
    let steps = paste_steps("Hello!", None);
    assert_eq!(steps.len(), 5);
    assert!(matches!(&steps[1], PasteStep::SetText(t) if t == "Hello!"));
    assert!(matches!(&steps[4], PasteStep::Sleep(100)));
}

#[test]
fn buffer_drops_whole_characters_from_the_front() {
    let chars: Vec<char> = "aé€😀".chars().collect();
    assert_eq!(keep_last_bytes_exec(&chars, 10), chars);
    assert_eq!(keep_last_bytes_exec(&chars, 9), "é€😀".chars().collect::<Vec<char>>());
    assert_eq!(keep_last_bytes_exec(&chars, 8), "€😀".chars().collect::<Vec<char>>());
    assert_eq!(keep_last_bytes_exec(&chars, 6), "😀".chars().collect::<Vec<char>>());
    assert_eq!(keep_last_bytes_exec(&chars, 3), Vec::<char>::new());
    assert_eq!(keep_last_bytes_exec(&Vec::new(), 0), Vec::<char>::new());
}
