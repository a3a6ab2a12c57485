use gir::config::Config;
use gir::connect::{keep_trying, next_attempts, proxy_exec, read_received, read_step, server_address};

fn config() -> Config {
    Config {
        server: "irc.example".to_string(),
        port: 6697,
        use_ssl: false,
        nickname: "bot".to_string(),
        realname: Some("Bot".to_string()),
        channels: vec![],
        sasl_username: Some(String::new()),
        sasl_password: Some(String::new()),
        capabilities: None,
        reconnect_delay: 1,
        reconnect_attempts: 3,
        use_proxy: true,
        proxy_addr: None,
        proxy_port: None,
        proxy_username: Some(String::new()),
        proxy_password: Some("x".to_string()),
        ascii_art: None,
        pump_delay: 0,
    }
}

#[test]
fn server_address_has_port() {
    assert_eq!(server_address(&config()), "irc.example:6697");
}

#[test]
fn proxy_defaults_to_local_tor() {
    let p = proxy_exec(&config());
    assert_eq!(p.proxy, "127.0.0.1:9050");
    assert_eq!(p.target, "irc.example:6697");
    assert!(p.credentials.is_none());
}

#[test]
fn proxy_with_credentials() {
    let mut c = config();
    c.proxy_addr = Some("10.0.0.1".to_string());
    c.proxy_port = Some(1080);
    c.proxy_username = Some("u".to_string());
    let p = proxy_exec(&c);
    assert_eq!(p.proxy, "10.0.0.1:1080");
    assert_eq!(p.credentials, Some(("u".to_string(), "x".to_string())));
}

#[test]
fn reads_split_into_lines() {
    let r = read_step(4, 4, "a\r\nb");
    assert_eq!(r.lines, vec!["a", "b"]);
    assert_eq!(r.buffer_len, 8);
    let r = read_step(10, 3, "a\n\nb\r");
    assert_eq!(r.lines, vec!["a", "", "b\r"]);
    assert_eq!(r.buffer_len, 10);
    let r = read_step(4, 4, "\n");
    assert_eq!(r.lines, vec![""]);
    assert_eq!(r.buffer_len, 8);
    let r = read_step(4, 4, "");
    assert!(r.lines.is_empty());
    assert_eq!(r.buffer_len, 4);
}

#[test]
fn reconnect_counting() {
    assert!(keep_trying(2, 3));
    assert!(!keep_trying(3, 3));
    assert_eq!(next_attempts(2, false), 3);
    assert_eq!(next_attempts(2, true), 0);
}

#[test]
fn received_bytes_are_read_lossily() {
    let mut buf = b"PING :a\r\nfoo\xffbar\r\nrest".to_vec();
    buf.extend_from_slice(&[0u8; 8]);
    let r = read_received(&buf, 22);
    assert_eq!(r.lines, vec!["PING :a", "foo\u{FFFD}bar", "rest"]);
    assert_eq!(r.buffer_len, buf.len());
    let full = b"x\ny".to_vec();
    let r = read_received(&full, 3);
    assert_eq!(r.lines, vec!["x", "y"]);
    assert_eq!(r.buffer_len, 6);
}
