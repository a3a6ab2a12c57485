use gir::sed::{MessageBuffer, SedCommand};

#[test]
fn parse_rejects_too_few_pieces() {
    assert!(SedCommand::parse("s/a/b").is_none());
}

#[test]
fn parse_rejects_bad_pattern() {
    assert!(SedCommand::parse("s/(/x/").is_none());
}

#[test]
fn apply_first_match_only() {
    let c = SedCommand::parse("s/foo/bar/").unwrap();
    assert_eq!(c.apply_to("foo foo"), "bar foo");
}

#[test]
fn apply_global() {
    let c = SedCommand::parse("s/foo/bar/g").unwrap();
    assert_eq!(c.apply_to("foo foo"), "bar bar");
}

#[test]
fn apply_expands_groups() {
    let c = SedCommand::parse("s/(a+)b/[$1]/").unwrap();
    assert_eq!(c.apply_to("xaab"), "x[aa]");
}

#[test]
fn matches_uses_pattern() {
    let c = SedCommand::parse("s/^h.llo$/x/").unwrap();
    assert!(c.matches("hello"));
    assert!(!c.matches("hello!"));
}

#[test]
fn buffer_keeps_latest_messages() {
    let mut b = MessageBuffer::new(2);
    b.add_message("one".to_string());
    b.add_message("two".to_string());
    b.add_message("three".to_string());
    let c = SedCommand::parse("s/one/uno/").unwrap();
    assert_eq!(b.apply_sed_command(&c), None);
    let c = SedCommand::parse("s/t/T/").unwrap();
    assert_eq!(b.apply_sed_command(&c), Some("Two".to_string()));
}

#[test]
fn correction_rewrites_oldest_match_in_place() {
    let mut b = MessageBuffer::new(10);
    b.add_message("cat one".to_string());
    b.add_message("cat two".to_string());
    let c = SedCommand::parse("s/cat/dog/").unwrap();
    assert_eq!(b.apply_sed_command(&c), Some("dog one".to_string()));
    // the rewritten message no longer matches, so the next one is the other
    assert_eq!(b.apply_sed_command(&c), Some("dog two".to_string()));
    assert_eq!(b.apply_sed_command(&c), None);
}

#[test]
fn zero_capacity_keeps_everything() {
    let mut b = MessageBuffer::new(0);
    b.add_message("a".to_string());
    b.add_message("b".to_string());
    let c = SedCommand::parse("s/a/A/").unwrap();
    assert_eq!(b.apply_sed_command(&c), Some("A".to_string()));
}
