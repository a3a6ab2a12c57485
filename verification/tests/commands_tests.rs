use gir::ai::{ai_reply, format_ai_reply, system_prompt, Ai};
use gir::commands::{
    invade_decision, invader_nicks, pong_reply, InvadeDecision, InvaderSession, InvadersCommand,
    KillCommand, PingCommand,
};

#[test]
fn ping_reports_time() {
    let p = PingCommand;
    assert_eq!(
        p.reply(":n!u@h PRIVMSG #c :%ping", "1.5µs"),
        vec!["PRIVMSG #c :PONG: 1.5µs\r\n"]
    );
    let out = p.handle(":n!u@h PRIVMSG #c :%ping");
    assert_eq!(out.len(), 1);
    assert!(out[0].starts_with("PRIVMSG #c :PONG: ") && out[0].ends_with("\r\n"));
    assert!(p.handle(":n!u@h PRIVMSG #c :hi").is_empty());
}

#[test]
fn kill_composes_farewell() {
    assert_eq!(
        KillCommand.handle(":n!u@h PRIVMSG #c :%kill"),
        Some("PRIVMSG #c :SELF DESTRUCTING...\r\n".to_string())
    );
    assert_eq!(KillCommand.handle(":n!u@h PRIVMSG #c :kill"), None);
}

#[test]
fn invaders_plan() {
    let plan = InvadersCommand.handle(":n!u@h PRIVMSG #c :%invaders", 3).unwrap();
    assert_eq!(plan.channel, "#c");
    assert_eq!(plan.scream_line, "PRIVMSG #c :PRIVMSG\r\n");
    assert_eq!(plan.reply, "PRIVMSG #c :Screaming \"PRIVMSG\" through 3 invaders..\r\n");
    assert!(InvadersCommand.handle(":n!u@h PRIVMSG #c :hi", 3).is_none());
}

#[test]
fn invade_plan() {
    match invade_decision(":n!u@h PRIVMSG #c :%invade 5 #target SCREAM") {
        InvadeDecision::Invade(p) => {
            assert_eq!(p.channel, "#c");
            assert_eq!(p.target, "#target");
            assert_eq!(p.scream, "SCREAM");
            assert_eq!(p.count, 5);
            assert_eq!(p.reply, "PRIVMSG #c :\x0304,01[!] INVADING #target WITH 5 INVADERS...\x0f\r\n");
        }
        _ => panic!("expected an invasion"),
    }
    match invade_decision(":n!u@h PRIVMSG #c :%invade x #t") {
        InvadeDecision::Invade(p) => {
            assert_eq!(p.count, 1);
            assert_eq!(p.scream, "");
        }
        _ => panic!("expected an invasion"),
    }
}

#[test]
fn invade_kill_and_ignore() {
    match invade_decision(":n!u@h PRIVMSG #c :%%kill") {
        InvadeDecision::Kill { reply } => {
            assert_eq!(reply, "PRIVMSG #c :\x0304,01[!] TERMINATING ALL INVADERS...\x0f\r\n")
        }
        _ => panic!("expected a kill"),
    }
    assert!(matches!(invade_decision("hello"), InvadeDecision::Ignore));
}

#[test]
fn nicks_for_each_invader() {
    assert_eq!(invader_nicks(3).len(), 3);
    for nick in invader_nicks(20) {
        assert!(!nick.is_empty());
        assert!(nick.chars().all(|c| c.is_ascii_lowercase()));
    }
}

#[test]
fn pong_replaces_every_ping() {
    assert_eq!(pong_reply("PING :x PING"), Some("PONG :x PONG".to_string()));
    assert_eq!(pong_reply(":x PING"), None);
}

fn session() -> InvaderSession {
    InvaderSession {
        nick: "slate".to_string(),
        channel: "#victim".to_string(),
        commander: "#cmd".to_string(),
        scream: "AAAA".to_string(),
    }
}

#[test]
fn invader_greets() {
    assert_eq!(
        session().greeting(),
        vec![
            "NICK slate\r\n",
            "USER slate 0 * :slate\r\n",
            "JOIN #cmd \r\n",
            "JOIN #victim \r\n",
            "PRIVMSG #victim :AAAA\r\n"
        ]
    );
}

#[test]
fn invader_answers_ping() {
    assert_eq!(session().react("PING :srv\r\n"), vec!["PONG :srv"]);
}

#[test]
fn invader_takes_leet_nick_when_taken() {
    let out = session().react(":ircd.chat 433 * slate :Nickname is already in use");
    assert_eq!(out[0], "NICK 51473\r\n");
    assert_eq!(out[1], "USER slate 0 * :slate\r\n");
    assert_eq!(out.len(), 5);
}

#[test]
fn invader_follows_orders() {
    assert_eq!(session().react(":boss!u@h PRIVMSG #cmd :%%join #new"), vec!["JOIN #new \r\n"]);
    assert_eq!(session().react(":boss!u@h PRIVMSG #cmd :%%leave #old"), vec!["PART #old \r\n"]);
    assert_eq!(
        session().react(":boss!u@h PRIVMSG #cmd :%%scream #x \"hello world\""),
        vec!["PRIVMSG #x :hello world\r\n"]
    );
    assert!(session().react(":boss!u@h PRIVMSG #other :%%join #new").is_empty());
}

#[test]
fn invader_screams_in_the_documented_form() {
    assert_eq!(
        session().react(":a!b@c PRIVMSG #cmd :%%scream #x SCREAM"),
        vec!["PRIVMSG #x :SCREAM\r\n"]
    );
    assert_eq!(
        session().react(":a!b@c PRIVMSG #cmd :%%scream   #x   we come in peace  \r\n"),
        vec!["PRIVMSG #x :we come in peace\r\n"]
    );
    assert_eq!(
        session().react(":a!b@c PRIVMSG #cmd :%%scream #x AAA\r\n:srv NOTICE x :y"),
        vec!["PRIVMSG #x :AAA\r\n"]
    );
}

#[test]
fn invader_screams_in_the_quoted_form() {
    assert_eq!(
        session().react(":a!b@c PRIVMSG #cmd :%%scream #x \"a\" b"),
        vec!["PRIVMSG #x :a\r\n"]
    );
    assert_eq!(
        session().react(":a!b@c PRIVMSG #cmd :%%scream #a b \"hi\""),
        vec!["PRIVMSG #a b :hi\r\n"]
    );
    assert_eq!(
        session().react(":a!b@c PRIVMSG #cmd :%%scream #x \"\""),
        vec!["PRIVMSG #x :\r\n"]
    );
    assert!(session().react(":a!b@c PRIVMSG #cmd :%%scream #x\"a\"").is_empty());
    assert_eq!(
        session().react(":a!b@c PRIVMSG #cmd :%%scream #x say \"hi"),
        vec!["PRIVMSG #x :say \"hi\r\n"]
    );
}

#[test]
fn invader_scream_needs_channel_and_text() {
    assert!(session().react(":a!b@c PRIVMSG #cmd :%%scream #x").is_empty());
    assert!(session().react(":a!b@c PRIVMSG #cmd :%%scream").is_empty());
    assert!(session().react(":a!b@c PRIVMSG #cmd :%%screamer #x hi").is_empty());
    assert!(session().react(":a!b@c PRIVMSG #elsewhere :%%scream #x hi").is_empty());
}

#[test]
fn ai_request_from_mention() {
    let r = Ai.handle(":bob!u@h PRIVMSG #c :g1r hello", "g1r").unwrap();
    assert_eq!(r.channel, "#c");
    assert_eq!(r.user_message, "hello");
    assert_eq!(r.username, "bob");
    assert!(Ai.handle(":bob!u@h PRIVMSG #c :hello", "g1r").is_none());
}

#[test]
fn ai_prompt() {
    assert_eq!(
        system_prompt("loudly", "a robot", "bob"),
        "Respond loudly as you are chatting as a robot, The following is a chat message to you from bob dont mention that you are who you are they can see that:"
    );
}

#[test]
fn ai_answer_formatting() {
    assert_eq!(
        format_ai_reply("Hi there\n\n  \nHow *Waves* ok", "bob", "#c"),
        vec![
            "PRIVMSG #c :\x0313bob\x0f: Hi there\r\n",
            "PRIVMSG #c :How\r\n",
            "PRIVMSG #c :\x01ACTION waves\x01\r\n",
            "PRIVMSG #c :ok\r\n"
        ]
    );
    assert_eq!(format_ai_reply("hey bob", "bob", "#c"), vec!["PRIVMSG #c :hey bob\r\n"]);
}

#[test]
fn ai_answer_is_filtered() {
    assert_eq!(
        ai_reply("  \"Hi\" G1R there ", "bob", "#c"),
        Some(vec!["PRIVMSG #c :\x0313bob\x0f: Hi there\r\n".to_string()])
    );
}
