//! Registration with the server, with or without SASL PLAIN.
use crate::text::{
    extend, extend_str, from_chars, has_prefix, has_substring, join, join_from, lemma_strings_view_push,
    seqs_view, starts_with_str, strings_view, to_chars, contains,
};
use base64::Engine;
use vstd::prelude::*;

verus! {

/// The character of the standard base64 alphabet for `v < 64`.
pub open spec fn b64_char(v: int) -> char {
    if v < 26 {
        (65 + v) as char
    } else if v < 52 {
        (97 + v - 26) as char
    } else if v < 62 {
        (48 + v - 52) as char
    } else if v == 62 {
        '+'
    } else {
        '/'
    }
}

/// Standard base64 (RFC 4648 alphabet, `=` padding) of `b`.
pub open spec fn base64_standard(b: Seq<u8>) -> Seq<char>
    decreases b.len(),
{
    if b.len() == 0 {
        Seq::empty()
    } else if b.len() == 1 {
        seq![b64_char(b[0] as int / 4), b64_char((b[0] as int % 4) * 16), '=', '=']
    } else if b.len() == 2 {
        seq![
            b64_char(b[0] as int / 4),
            b64_char((b[0] as int % 4) * 16 + b[1] as int / 16),
            b64_char((b[1] as int % 16) * 4),
            '=',
        ]
    } else {
        seq![
            b64_char(b[0] as int / 4),
            b64_char((b[0] as int % 4) * 16 + b[1] as int / 16),
            b64_char((b[1] as int % 16) * 4 + b[2] as int / 64),
            b64_char(b[2] as int % 64),
        ] + base64_standard(b.skip(3))
    }
}

/// Calls `base64::engine::general_purpose::STANDARD.encode`; claims that the
/// result is the standard, padded base64 of the bytes, as RFC 4648 and the
/// crate's documentation give it.
#[verifier::external_body]
pub(crate) fn base64_encode(bytes: &[u8]) -> (res: String)
    ensures
        res@ == base64_standard(bytes@),
{
    base64::engine::general_purpose::STANDARD.encode(bytes)
}

/// `NICK <nickname>` and `USER <nickname> 0 * :<realname>`.
pub open spec fn nick_lines(nickname: Seq<char>, realname: Seq<char>) -> Seq<Seq<char>> {
    seq![
        "NICK "@ + nickname + "\r\n"@,
        "USER "@ + nickname + " 0 * :"@ + realname + "\r\n"@,
    ]
}

/// The lines that register `nickname` with `realname`.
pub fn nickme(nickname: &str, realname: &str) -> (res: Vec<String>)
    ensures
        strings_view(res@) == nick_lines(nickname@, realname@),
{
    let mut a: Vec<char> = Vec::new();
    extend_str(&mut a, "NICK ");
    extend_str(&mut a, nickname);
    extend_str(&mut a, "\r\n");
    let mut b: Vec<char> = Vec::new();
    extend_str(&mut b, "USER ");
    extend_str(&mut b, nickname);
    extend_str(&mut b, " 0 * :");
    extend_str(&mut b, realname);
    extend_str(&mut b, "\r\n");
    let mut res: Vec<String> = Vec::new();
    res.push(from_chars(&a));
    res.push(from_chars(&b));
    assert(strings_view(res@) =~= nick_lines(nickname@, realname@));
    res
}

/// The views of an optional list of strings.
pub open spec fn opt_strings(o: Option<Vec<String>>) -> Option<Seq<Seq<char>>> {
    match o {
        Some(v) => Some(strings_view(v@)),
        None => None,
    }
}

/// What starting SASL sends: `CAP LS 302`, the registration, then a
/// request for the configured capabilities (none for an empty list), or
/// for `sasl` when none are configured.
pub open spec fn sasl_start_lines(
    nickname: Seq<char>,
    realname: Seq<char>,
    capabilities: Option<Seq<Seq<char>>>,
) -> Seq<Seq<char>> {
    let request = match capabilities {
        Some(caps) => if caps.len() > 0 {
            seq!["CAP REQ :"@ + join(caps, " "@) + "\r\n"@]
        } else {
            Seq::empty()
        },
        None => seq!["CAP REQ :sasl\r\n"@],
    };
    seq!["CAP LS 302\r\n"@] + nick_lines(nickname, realname) + request
}

/// The lines that start SASL authentication.  The mechanism is not sent
/// at this point.
pub fn start_sasl_auth(
    mechanism: &str,
    nickname: &str,
    realname: &str,
    capabilities: &Option<Vec<String>>,
) -> (res: Vec<String>)
    ensures
        strings_view(res@) == sasl_start_lines(nickname@, realname@, opt_strings(*capabilities)),
{
    let mut res: Vec<String> = Vec::new();
    res.push(String::from_str("CAP LS 302\r\n"));
    let mut nick = nickme(nickname, realname);
    let ghost r0 = res@;
    let ghost n0 = nick@;
    res.append(&mut nick);
    assert(strings_view(res@) =~= strings_view(r0) + strings_view(n0));
    match capabilities {
        Some(caps) => {
            if caps.len() > 0 {
                let mut parts: Vec<Vec<char>> = Vec::new();
                let mut i: usize = 0;
                while i < caps.len()
                    invariant
                        i <= caps.len(),
                        seqs_view(parts@) == strings_view(caps@).take(i as int),
                    decreases caps.len() - i,
                {
                    let p = to_chars(caps[i].as_str());
                    proof {
                        crate::text::lemma_seqs_view_push(parts@, p);
                    }
                    parts.push(p);
                    assert(strings_view(caps@).take(i + 1) =~= strings_view(caps@).take(
                        i as int,
                    ).push(caps@[i as int]@));
                    i += 1;
                }
                assert(strings_view(caps@).take(caps.len() as int) =~= strings_view(caps@));
                let sep = to_chars(" ");
                let joined = join_from(&parts, 0, &sep);
                assert(seqs_view(parts@).skip(0) =~= seqs_view(parts@));
                let mut line: Vec<char> = Vec::new();
                extend_str(&mut line, "CAP REQ :");
                extend(&mut line, &joined);
                extend_str(&mut line, "\r\n");
                let l = from_chars(&line);
                proof {
                    lemma_strings_view_push(res@, l);
                }
                res.push(l);
            }
        },
        None => {
            let l = String::from_str("CAP REQ :sasl\r\n");
            proof {
                lemma_strings_view_push(res@, l);
            }
            res.push(l);
        },
    }
    assert(strings_view(res@) =~= sasl_start_lines(nickname@, realname@, opt_strings(*capabilities)));
    res
}

/// The SASL PLAIN credentials: `\0username\0password`.
pub open spec fn plain_credentials(username: Seq<char>, password: Seq<char>) -> Seq<char> {
    seq!['\0'] + username + seq!['\0'] + password
}

/// The answer to a server message during SASL: ask for PLAIN once `sasl`
/// is acknowledged, send the encoded credentials when asked for them, end
/// capability negotiation once authenticated.
pub open spec fn sasl_reply(
    message: Seq<char>,
    username: Seq<char>,
    password: Seq<char>,
    nickname: Seq<char>,
) -> Seq<Seq<char>> {
    if has_substring(message, "CAP "@ + nickname + " ACK :sasl"@) {
        seq!["AUTHENTICATE PLAIN\r\n"@]
    } else if has_prefix(message, "AUTHENTICATE +"@) {
        seq![
            "AUTHENTICATE "@ + base64_standard(
                vstd::utf8::encode_utf8(plain_credentials(username, password)),
            ) + "\r\n"@,
        ]
    } else if has_substring(message, "903 * :SASL authentication successful"@) {
        seq!["CAP END\r\n"@]
    } else {
        Seq::empty()
    }
}

/// Answers a server message during SASL authentication.
pub fn handle_sasl_messages(message: &str, username: &str, password: &str, nickname: &str) -> (res:
    Vec<String>)
    ensures
        strings_view(res@) == sasl_reply(message@, username@, password@, nickname@),
{
    let msg = to_chars(message);
    let mut ack: Vec<char> = Vec::new();
    extend_str(&mut ack, "CAP ");
    extend_str(&mut ack, nickname);
    extend_str(&mut ack, " ACK :sasl");
    let mut res: Vec<String> = Vec::new();
    if contains(&msg, &ack) {
        res.push(String::from_str("AUTHENTICATE PLAIN\r\n"));
    } else if starts_with_str(&msg, "AUTHENTICATE +") {
        let mut cred: Vec<char> = Vec::new();
        cred.push('\0');
        extend_str(&mut cred, username);
        cred.push('\0');
        extend_str(&mut cred, password);
        assert(cred@ =~= plain_credentials(username@, password@));
        let cred_s = from_chars(&cred);
        let encoded = base64_encode(cred_s.as_str().as_bytes());
        let mut line: Vec<char> = Vec::new();
        extend_str(&mut line, "AUTHENTICATE ");
        extend_str(&mut line, encoded.as_str());
        extend_str(&mut line, "\r\n");
        res.push(from_chars(&line));
    } else if crate::text::contains_str(&msg, "903 * :SASL authentication successful") {
        res.push(String::from_str("CAP END\r\n"));
    }
    assert(strings_view(res@) =~= sasl_reply(message@, username@, password@, nickname@));
    res
}

} // verus!
