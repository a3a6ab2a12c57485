use gir::action::{Action, ArtRequest};
use gir::config::Config;
use gir::irc::{register, BotState, LineDice};
use gir::drugs::{BeerDice, DrugDice, SmokeDice};

fn config(password: &str, caps: Option<Vec<&str>>) -> Config {
    Config {
        server: "irc.example".to_string(),
        port: 6697,
        use_ssl: true,
        nickname: "bot".to_string(),
        realname: None,
        channels: vec!["#one".to_string(), "#two".to_string()],
        sasl_username: Some("jilles".to_string()),
        sasl_password: Some(password.to_string()),
        capabilities: caps.map(|c| c.into_iter().map(|s| s.to_string()).collect()),
        reconnect_delay: 1,
        reconnect_attempts: 3,
        use_proxy: false,
        proxy_addr: None,
        proxy_port: None,
        proxy_username: None,
        proxy_password: None,
        ascii_art: Some("art".to_string()),
        pump_delay: 0,
    }
}

fn sends(v: &[&str]) -> Vec<Action> {
    v.iter().map(|s| Action::Send(s.to_string())).collect()
}

#[test]
fn register_without_password_sends_nick() {
    let (sasl, lines) = register(&config("", None), false);
    assert!(!sasl);
    assert_eq!(lines, vec!["NICK bot\r\n", "USER bot 0 * :bot\r\n"]);
}

#[test]
fn register_with_password_starts_sasl() {
    let (sasl, lines) = register(&config("sesame", None), false);
    assert!(sasl);
    assert_eq!(
        lines,
        vec!["CAP LS 302\r\n", "NICK bot\r\n", "USER bot 0 * :bot\r\n", "CAP REQ :sasl\r\n"]
    );
}

#[test]
fn register_requests_configured_capabilities() {
    let (_, lines) = register(&config("sesame", Some(vec!["sasl", "multi-prefix"])), false);
    assert_eq!(lines[3], "CAP REQ :sasl multi-prefix\r\n");
    let (_, lines) = register(&config("sesame", Some(vec![])), false);
    assert_eq!(lines.len(), 3);
}

#[test]
fn sasl_starts_only_once() {
    let c = config("sesame", None);
    let (sasl, _) = register(&c, false);
    let (again, lines) = register(&c, sasl);
    assert!(again);
    assert_eq!(lines, vec!["NICK bot\r\n", "USER bot 0 * :bot\r\n"]);
}

#[test]
fn ping_is_answered_with_pong() {
    let mut st = BotState::new(false, 10);
    let out = st.handle_line(&config("", None), "PING :irc.example PING\r\n");
    assert_eq!(out, sends(&["PONG :irc.example PONG\r\n"]));
}

#[test]
fn blank_lines_are_ignored() {
    let mut st = BotState::new(false, 10);
    assert!(st.handle_line(&config("", None), "  \r\n").is_empty());
}

#[test]
fn welcome_sets_mode_and_motd_end_joins() {
    let mut st = BotState::new(false, 10);
    let c = config("", None);
    assert_eq!(st.handle_line(&c, ":srv 001 bot :Welcome"), sends(&["MODE bot +B\r\n"]));
    assert_eq!(
        st.handle_line(&c, ":srv 376 bot :End of MOTD"),
        sends(&["JOIN #one\r\n", "JOIN #two\r\n"])
    );
}

#[test]
fn kicked_bot_rejoins() {
    let mut st = BotState::new(false, 10);
    let c = config("", None);
    assert_eq!(st.handle_line(&c, ":op!u@h KICK #chan bot :bye"), sends(&["JOIN #chan\r\n"]));
    assert!(st.handle_line(&c, ":op!u@h KICK #chan other :bye").is_empty());
}

#[test]
fn sasl_conversation() {
    let mut st = BotState::new(true, 10);
    let c = config("sesame", None);
    assert_eq!(
        st.handle_line(&c, ":srv CAP bot ACK :sasl"),
        sends(&["AUTHENTICATE PLAIN\r\n"])
    );
    assert_eq!(
        st.handle_line(&c, "AUTHENTICATE +"),
        sends(&["AUTHENTICATE AGppbGxlcwBzZXNhbWU=\r\n"])
    );
    assert_eq!(
        st.handle_line(&c, ":srv 903 * :SASL authentication successful"),
        sends(&["CAP END\r\n"])
    );
}

#[test]
fn sasl_messages_ignored_when_sasl_not_started() {
    let mut st = BotState::new(false, 10);
    assert!(st.handle_line(&config("sesame", None), ":srv CAP bot ACK :sasl").is_empty());
}

#[test]
fn corrections_use_remembered_messages() {
    let mut st = BotState::new(false, 10);
    let c = config("", None);
    assert!(st.handle_line(&c, ":nick!u@h PRIVMSG #chan :hello there").is_empty());
    assert_eq!(
        st.handle_line(&c, ":nick!u@h PRIVMSG #chan :s/hello/bye/"),
        sends(&["PRIVMSG #chan :bye there\r\n"])
    );
    assert!(st.handle_line(&c, ":nick!u@h PRIVMSG #chan :s/nothing/x/").is_empty());
}

#[test]
fn only_the_first_colon_is_dropped() {
    let mut st = BotState::new(false, 10);
    let c = config("", None);
    st.handle_line(&c, ":nick!u@h PRIVMSG #chan :a:b c");
    assert_eq!(
        st.handle_line(&c, ":nick!u@h PRIVMSG #chan :s/a:b/x/"),
        sends(&["PRIVMSG #chan :x c\r\n"])
    );
}

#[test]
fn ascii_command_becomes_a_request() {
    let mut st = BotState::new(false, 10);
    let out = st.handle_line(&config("", None), ":nick!u@h PRIVMSG #chan :%ascii list");
    assert_eq!(
        out,
        vec![Action::Art {
            channel: "#chan".to_string(),
            request: ArtRequest::List { dir: "art/".to_string() }
        }]
    );
}

#[test]
fn drug_command_with_given_dice() {
    let mut st = BotState::new(false, 10);
    let dice = LineDice {
        drugs: DrugDice {
            drop: 1,
            lucky: true,
            smoke: SmokeDice { first: 2, second: 2, puff: vec!['-'; 5] },
            mug: vec![vec![':'; 9]; 7],
            beer: BeerDice { brand: 2, temperature: 2, label: 0, lucky: false },
        },
        vomit: vec![],
    };
    let out = st.apply_line(&config("", None), ":nick!u@h PRIVMSG #chan :%beer", &dice);
    assert_eq!(
        out,
        sends(&["PRIVMSG #chan :\x01ACTION throws \x0300#chan\x0f an empty \x0302,00 ULTRA \x0f\x0304,00🬃\x0f =)\x01\r\n"])
    );
}

#[test]
fn drug_commands_keep_state_across_lines() {
    let mut st = BotState::new(false, 10);
    let c = config("", None);
    let out = st.handle_line(&c, ":nick!u@h PRIVMSG #chan :%chug");
    assert_eq!(out.len(), 9);
    assert!(st.drugs.stats.sips == 6 || st.drugs.stats.sips == 7);
}

#[test]
fn server_lines_leave_the_history_alone() {
    let mut st = BotState::new(false, 1);
    let c = config("", None);
    st.handle_line(&c, ":nick!u@h PRIVMSG #chan :first");
    st.handle_line(&c, ":srv NOTICE bot :second");
    st.handle_line(&c, "PING :srv");
    st.handle_line(&c, ":srv 001 bot :welcome");
    st.handle_line(&c, "   ");
    assert_eq!(st.drugs.stats.sips, 8);
    assert_eq!(
        st.handle_line(&c, ":nick!u@h PRIVMSG #chan :s/first/x/"),
        sends(&["PRIVMSG #chan :x\r\n"])
    );
}

#[test]
fn chat_is_remembered_latest_last() {
    let mut st = BotState::new(false, 2);
    let c = config("", None);
    st.handle_line(&c, ":a!u@h PRIVMSG #chan :one");
    st.handle_line(&c, ":b!u@h PRIVMSG #chan :two");
    st.handle_line(&c, ":c!u@h PRIVMSG #chan :three");
    assert!(st.handle_line(&c, ":d!u@h PRIVMSG #chan :s/one/x/").is_empty());
    assert_eq!(
        st.handle_line(&c, ":d!u@h PRIVMSG #chan :s/t/T/"),
        sends(&["PRIVMSG #chan :Two\r\n"])
    );
}
