use gir::action::Action;
use gir::text::to_chars;
use gir::vomit::{handle_vomit_command, split_into_chunks, vomit_from, vomit_length_of, VomitRoll};

fn strings(v: Vec<Vec<char>>) -> Vec<String> {
    v.into_iter().map(|c| c.into_iter().collect()).collect()
}

#[test]
fn chunks_split_by_bytes() {
    assert_eq!(strings(split_into_chunks(&to_chars("abcdef"), 4)), vec!["abcd", "ef"]);
}

#[test]
fn chunks_never_split_a_character() {
    assert_eq!(strings(split_into_chunks(&to_chars("ééé"), 4)), vec!["éé", "é"]);
    assert_eq!(strings(split_into_chunks(&to_chars("aé"), 2)), vec!["a", "é"]);
}

#[test]
fn chunks_reassemble_the_text() {
    let text = "vomit ü 🬃 more vomit";
    let parts = strings(split_into_chunks(&to_chars(text), 5));
    assert_eq!(parts.concat(), text);
    assert!(parts.iter().all(|p| !p.is_empty() && p.len() <= 5));
}

#[test]
fn chunk_smaller_than_a_character_starts_with_an_empty_chunk() {
    assert_eq!(strings(split_into_chunks(&to_chars("é"), 1)), vec!["", "é"]);
}

#[test]
fn chunks_of_empty_text() {
    assert!(split_into_chunks(&to_chars(""), 400).is_empty());
}

#[test]
fn vomit_pieces_are_coloured_and_formatted() {
    let rolls = vec![
        VomitRoll { color: 3, format: 1, codepoint: 65 },
        VomitRoll { color: 12, format: 0, codepoint: 0xD800 },
        VomitRoll { color: 0, format: 2, codepoint: 0x1F600 },
    ];
    let text: String = vomit_from(&rolls).into_iter().collect();
    assert_eq!(text, "\x0303\x1DA\x0312\x02 \x0300\x1F\u{1F600}");
}

#[test]
fn vomit_length_parses_or_defaults() {
    assert_eq!(vomit_length_of(&to_chars("%vomit 12")), 12);
    assert_eq!(vomit_length_of(&to_chars("%vomit +7")), 7);
    assert_eq!(vomit_length_of(&to_chars("%vomit abc")), 1000);
    assert_eq!(vomit_length_of(&to_chars("%vomit")), 1000);
    assert_eq!(vomit_length_of(&to_chars("%vomit -3")), 1000);
    assert_eq!(vomit_length_of(&to_chars("%vomit 99999999999999999999999")), 1000);
}

#[test]
fn vomit_command_sends_chunks_with_pauses() {
    let out = handle_vomit_command("%vomit 2", "#c", 3);
    assert_eq!(out.len(), 2);
    match &out[0] {
        Action::Send(s) => assert!(s.starts_with("PRIVMSG #c :\x03") && s.ends_with("\r\n")),
        other => panic!("unexpected {:?}", other),
    }
    assert_eq!(out[1], Action::SleepSecs(3));
}

#[test]
fn default_vomit_is_many_chunks() {
    let out = handle_vomit_command("%vomit", "#c", 0);
    assert!(out.len() >= 2 * 10);
    assert_eq!(out.len() % 2, 0);
}

#[test]
fn chunks_reassemble_for_every_limit() {
    for max in 0..6 {
        let parts = strings(split_into_chunks(&to_chars("aé€𝄞b"), max));
        assert_eq!(parts.concat(), "aé€𝄞b");
    }
}
