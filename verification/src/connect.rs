//! Where the bot connects, how it reads what the server sends, and when it
//! tries again.
use crate::config::{view_or, Config};
use crate::text::{
    from_utf8_lossy, utf8_lossy,
    decimal, decimal_chars, extend, extend_str, from_chars, lemma_split_char_nonempty,
    lemma_strings_view_push, seqs_view, slice, split_char, split_on, strings_view, to_chars,
};
use vstd::prelude::*;

verus! {

// ---------------------------------------------------------------------------
// Addresses
// ---------------------------------------------------------------------------

/// `host:port`.
pub open spec fn host_port(host: Seq<char>, port: u16) -> Seq<char> {
    host + ":"@ + decimal(port as nat)
}

fn host_port_exec(host: &str, port: u16) -> (res: String)
    ensures
        res@ == host_port(host@, port),
{
    let mut v = to_chars(host);
    extend_str(&mut v, ":");
    let d = decimal_chars(port as u64);
    extend(&mut v, &d);
    from_chars(&v)
}

/// The address of the IRC server, `server:port`.
pub fn server_address(config: &Config) -> (res: String)
    ensures
        res@ == host_port(config.server@, config.port),
{
    host_port_exec(config.server.as_str(), config.port)
}

/// How to reach the server through a SOCKS5 proxy.
pub struct ProxyPlan {
    /// The proxy's address.
    pub proxy: String,
    /// The IRC server's address.
    pub target: String,
    /// The user name and password, when both are nonempty.
    pub credentials: Option<(String, String)>,
}

/// Both proxy credentials are configured (the bot refuses to use a proxy
/// without them).
pub open spec fn has_proxy_credentials(config: Config) -> bool {
    config.proxy_username is Some && config.proxy_password is Some
}

/// The proxy's address: the configured host (else `127.0.0.1`) and port
/// (else 9050).
pub open spec fn proxy_address(config: Config) -> Seq<char> {
    host_port(
        view_or(config.proxy_addr, "127.0.0.1"@),
        match config.proxy_port {
            Some(p) => p,
            None => 9050,
        },
    )
}

/// Whether the proxy is used with a user name and password: only when
/// both are nonempty.
pub open spec fn proxy_authenticates(config: Config) -> bool {
    view_or(config.proxy_username, Seq::empty()).len() > 0 && view_or(
        config.proxy_password,
        Seq::empty(),
    ).len() > 0
}

/// Works out the proxy connection.
pub fn proxy_exec(config: &Config) -> (res: ProxyPlan)
    requires
        has_proxy_credentials(*config),
    ensures
        res.proxy@ == proxy_address(*config),
        res.target@ == host_port(config.server@, config.port),
        match res.credentials {
            Some((u, p)) => proxy_authenticates(*config) && u@ == view_or(
                config.proxy_username,
                Seq::empty(),
            ) && p@ == view_or(config.proxy_password, Seq::empty()),
            None => !proxy_authenticates(*config),
        },
{
    let addr: &str = match &config.proxy_addr {
        Some(a) => a.as_str(),
        None => "127.0.0.1",
    };
    let port: u16 = match config.proxy_port {
        Some(p) => p,
        None => 9050,
    };
    let proxy = host_port_exec(addr, port);
    let target = host_port_exec(config.server.as_str(), config.port);
    let credentials = match (&config.proxy_username, &config.proxy_password) {
        (Some(u), Some(p)) => {
            let uv = to_chars(u.as_str());
            let pv = to_chars(p.as_str());
            if uv.len() > 0 && pv.len() > 0 {
                Some((u.clone(), p.clone()))
            } else {
                None
            }
        },
        _ => None,
    };
    ProxyPlan { proxy, target, credentials }
}

// ---------------------------------------------------------------------------
// Reading
// ---------------------------------------------------------------------------

/// `l` without one trailing carriage return.
pub open spec fn strip_cr(l: Seq<char>) -> Seq<char> {
    if l.len() > 0 && l.last() == '\r' {
        l.drop_last()
    } else {
        l
    }
}

/// The lines of `s` (`str::lines`): split at each `\n`, a `\r` before the
/// `\n` dropped, and no empty line after a final `\n`.
pub open spec fn text_lines(s: Seq<char>) -> Seq<Seq<char>> {
    let parts = split_char(s, '\n');
    let ended = parts.take(parts.len() - 1).map_values(|p: Seq<char>| strip_cr(p));
    if parts.last().len() > 0 {
        ended.push(parts.last())
    } else {
        ended
    }
}

/// The lines of `s`.
pub fn split_lines(s: &Vec<char>) -> (res: Vec<String>)
    ensures
        strings_view(res@) == text_lines(s@),
{
    let parts = split_on(s, '\n');
    proof {
        lemma_split_char_nonempty(s@, '\n');
    }
    let ghost pv = seqs_view(parts@);
    let n = parts.len();
    let mut res: Vec<String> = Vec::new();
    let mut i: usize = 0;
    assert(pv.take(0).map_values(|p: Seq<char>| strip_cr(p)) =~= Seq::<Seq<char>>::empty());
    while i < n - 1
        invariant
            n == parts@.len(),
            n >= 1,
            i <= n - 1,
            pv == seqs_view(parts@),
            strings_view(res@) == pv.take(i as int).map_values(|p: Seq<char>| strip_cr(p)),
        decreases n - 1 - i,
    {
        let p = &parts[i];
        let line = if p.len() > 0 && p[p.len() - 1] == '\r' {
            slice(p, 0, p.len() - 1)
        } else {
            p.clone()
        };
        assert(line@ == strip_cr(pv[i as int]));
        let l = from_chars(&line);
        proof {
            lemma_strings_view_push(res@, l);
        }
        res.push(l);
        assert(pv.take(i + 1).map_values(|p: Seq<char>| strip_cr(p)) =~= pv.take(
            i as int,
        ).map_values(|p: Seq<char>| strip_cr(p)).push(strip_cr(pv[i as int])));
        i += 1;
    }
    if parts[n - 1].len() > 0 {
        let l = from_chars(&parts[n - 1]);
        proof {
            lemma_strings_view_push(res@, l);
        }
        res.push(l);
    }
    res
}

/// What one read gives: the lines of the received bytes, read as text,
/// and the size of the read buffer for the next read.
pub struct ReadResult {
    pub lines: Vec<String>,
    pub buffer_len: usize,
}

/// The read buffer doubles when a read filled it and brought a line.
pub open spec fn next_buffer_len(buffer_len: usize, received: nat, line_count: nat) -> nat {
    if line_count > 0 && received == buffer_len {
        (buffer_len * 2) as nat
    } else {
        buffer_len as nat
    }
}

/// Handles one read from the server: `received` bytes arrived in a buffer
/// of `buffer_len` bytes and read as `text`.
pub fn read_step(buffer_len: usize, received: usize, text: &str) -> (res: ReadResult)
    requires
        received == buffer_len && text_lines(text@).len() > 0 ==> buffer_len * 2 <= usize::MAX,
    ensures
        strings_view(res.lines@) == text_lines(text@),
        res.buffer_len == next_buffer_len(buffer_len, received as nat, text_lines(text@).len()),
{
    let chars = to_chars(text);
    let lines = split_lines(&chars);
    let buffer_len = if lines.len() > 0 && received == buffer_len {
        buffer_len * 2
    } else {
        buffer_len
    };
    ReadResult { lines, buffer_len }
}

/// Handles one read from the server: the first `received` bytes of
/// `buffer` arrived; they are read as text with `String::from_utf8_lossy`,
/// then split into lines and the buffer size chosen as `read_step` does.
/// A byte vector never holds more than `isize::MAX` bytes, so doubling its
/// length never overflows.
pub fn read_received(buffer: &Vec<u8>, received: usize) -> (res: ReadResult)
    requires
        received <= buffer.len(),
        buffer.len() * 2 <= usize::MAX,
    ensures
        strings_view(res.lines@) == text_lines(utf8_lossy(buffer@.take(received as int))),
        res.buffer_len == next_buffer_len(
            buffer.len(),
            received as nat,
            text_lines(utf8_lossy(buffer@.take(received as int))).len(),
        ),
{
    let mut bytes: Vec<u8> = Vec::new();
    let mut i: usize = 0;
    while i < received
        invariant
            i <= received <= buffer.len(),
            bytes@ == buffer@.take(i as int),
        decreases received - i,
    {
        bytes.push(buffer[i]);
        i += 1;
        assert(bytes@ =~= buffer@.take(i as int));
    }
    let text = from_utf8_lossy(bytes.as_slice());
    read_step(buffer.len(), received, text.as_str())
}

// ---------------------------------------------------------------------------
// Reconnecting
// ---------------------------------------------------------------------------

/// Whether another connection is tried after `attempts` failures in a row.
pub fn keep_trying(attempts: u64, max_attempts: u64) -> (res: bool)
    ensures
        res == (attempts < max_attempts),
{
    attempts < max_attempts
}

/// The count of failures in a row after a connection ended: back to 0
/// after a success, one more after a failure.
pub fn next_attempts(attempts: u64, succeeded: bool) -> (res: u64)
    requires
        !succeeded ==> attempts < u64::MAX,
    ensures
        res == if succeeded {
            0
        } else {
            attempts + 1
        },
{
    if succeeded {
        0
    } else {
        attempts + 1
    }
}

} // verus!
