use gir::action::{Action, ArtRequest};
use gir::ascii::{handle_ascii_command, handle_list, handle_random, send_ansi_art, ArtEntry, RandomArt};
use gir::config::Config;

fn config(art: Option<&str>) -> Config {
    Config {
        server: "irc.example".to_string(),
        port: 6697,
        use_ssl: true,
        nickname: "bot".to_string(),
        realname: None,
        channels: vec![],
        sasl_username: Some(String::new()),
        sasl_password: Some(String::new()),
        capabilities: None,
        reconnect_delay: 1,
        reconnect_attempts: 1,
        use_proxy: false,
        proxy_addr: None,
        proxy_port: None,
        proxy_username: None,
        proxy_password: None,
        ascii_art: art.map(|a| a.to_string()),
        pump_delay: 5,
    }
}

fn art(channel: &str, request: ArtRequest) -> Vec<Action> {
    vec![Action::Art { channel: channel.to_string(), request }]
}

#[test]
fn random_uses_the_art_directory() {
    assert_eq!(
        handle_ascii_command(&config(Some("art")), "%ascii random", "#c"),
        art("#c", ArtRequest::Random { dir: "art".to_string() })
    );
}

#[test]
fn random_without_directory_does_nothing() {
    assert!(handle_ascii_command(&config(None), "%ascii random", "#c").is_empty());
}

#[test]
fn list_names_a_subdirectory() {
    assert_eq!(
        handle_ascii_command(&config(Some("art")), "%ascii list", "#c"),
        art("#c", ArtRequest::List { dir: "art/".to_string() })
    );
    assert_eq!(
        handle_ascii_command(&config(None), "%ascii list sub", "#c"),
        art("#c", ArtRequest::List { dir: "ascii_art/sub".to_string() })
    );
}

#[test]
fn words_name_a_file_path() {
    assert_eq!(
        handle_ascii_command(&config(Some("art")), "%ascii cats  big fluffy", "#c"),
        art("#c", ArtRequest::Show { path: "art/cats/big/fluffy.txt".to_string() })
    );
    assert_eq!(
        handle_ascii_command(&config(Some("art")), "%ascii cat", "#c"),
        art("#c", ArtRequest::Show { path: "art/cat.txt".to_string() })
    );
    assert_eq!(
        handle_ascii_command(&config(None), "%ascii", "#c"),
        art("#c", ArtRequest::Show { path: "ascii_art/.txt".to_string() })
    );
    assert_eq!(
        handle_ascii_command(&config(Some("art")), "%ascii random x", "#c"),
        art("#c", ArtRequest::Show { path: "art/random/x.txt".to_string() })
    );
}

#[test]
fn listing_labels_entries() {
    let entries = vec![
        ArtEntry { name: "a.txt".to_string(), is_dir: false },
        ArtEntry { name: "dir".to_string(), is_dir: true },
        ArtEntry { name: "b.md".to_string(), is_dir: false },
    ];
    assert_eq!(handle_list(&entries, "#c"), "PRIVMSG #c :a, dir/, b.md\r\n");
    assert_eq!(handle_list(&vec![], "#c"), "PRIVMSG #c :No files or directories found\r\n");
}

#[test]
fn random_pick_or_none_found() {
    match handle_random(&vec![], "#c") {
        RandomArt::Reply(r) => assert_eq!(r, "PRIVMSG #c :No files found\r\n"),
        _ => panic!("expected a reply"),
    }
    match handle_random(&vec!["art/x.txt".to_string()], "#c") {
        RandomArt::Send { path } => assert_eq!(path, "art/x.txt"),
        _ => panic!("expected a file"),
    }
}

#[test]
fn art_lines_are_sent_with_pauses() {
    let out = send_ansi_art(&vec!["hi".to_string(), "there".to_string()], 5, "#c");
    assert_eq!(
        out,
        vec![
            Action::Send("PRIVMSG #c :hi\r\n".to_string()),
            Action::SleepMillis(5),
            Action::Send("PRIVMSG #c :there\r\n".to_string()),
            Action::SleepMillis(5),
        ]
    );
}

#[test]
fn long_files_are_slowed_down() {
    let lines: Vec<String> = (0..501).map(|_| "x".to_string()).collect();
    let out = send_ansi_art(&lines, 5, "#c");
    assert_eq!(out[1], Action::SleepMillis(100));
    let lines: Vec<String> = (0..500).map(|_| "x".to_string()).collect();
    let out = send_ansi_art(&lines, 5, "#c");
    assert_eq!(out[1], Action::SleepMillis(5));
}

#[test]
fn long_lines_are_cut_into_byte_chunks() {
    let out = send_ansi_art(&vec!["x".repeat(5000)], 0, "#c");
    assert_eq!(out.len(), 4);
    assert_eq!(out[0], Action::Send(format!("PRIVMSG #c :{}\r\n", "x".repeat(4096))));
    assert_eq!(out[2], Action::Send(format!("PRIVMSG #c :{}\r\n", "x".repeat(904))));
}

#[test]
fn cut_characters_are_replaced() {
    let line = format!("a{}", "é".repeat(2048));
    let out = send_ansi_art(&vec![line], 0, "#c");
    assert_eq!(out.len(), 4);
    assert_eq!(out[0], Action::Send(format!("PRIVMSG #c :a{}\u{FFFD}\r\n", "é".repeat(2047))));
    assert_eq!(out[2], Action::Send("PRIVMSG #c :\u{FFFD}\r\n".to_string()));
}
