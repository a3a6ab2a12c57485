//! The commander's commands: `%ping`, `%kill`, `%invaders`, `%invade` and
//! the invader bots' own answers.
use crate::action::privmsg;
use crate::text::{
    leading_ws, trailing_ws, before, before_exec, contains, contains_str, decimal, decimal_chars, extend, extend_str,
    find, first_occurrence, from_chars, has_prefix, has_substring, is_whitespace, is_ws,
    lemma_leading_ws, occurs_at, slice, trim_start, trim_start_chars, parse_u32, parse_u32_spec, replace, replace_all,
    second_piece, second_piece_exec, split_whitespace, split_ws, starts_with_str,
    strings_view, to_chars, trim, trim_chars, lemma_strings_view_push,
};
use vstd::prelude::*;

verus! {

/// The channel of a `PRIVMSG`: what follows the first `PRIVMSG `, up to
/// the next space (or the next `PRIVMSG `).
pub open spec fn channel_of(msg: Seq<char>) -> Seq<char> {
    match second_piece(msg, "PRIVMSG "@) {
        Some(x) => before(x, " "@),
        None => Seq::empty(),
    }
}

/// The channel of a `PRIVMSG`.
pub fn channel_of_exec(msg: &Vec<char>) -> (res: Vec<char>)
    ensures
        res@ == channel_of(msg@),
{
    let p = to_chars("PRIVMSG ");
    let space = to_chars(" ");
    match second_piece_exec(msg, &p) {
        Some(x) => before_exec(&x, &space),
        None => Vec::new(),
    }
}

/// `PRIVMSG <target> :<text>\r\n`.
fn privmsg_string(target: &Vec<char>, text: &Vec<char>) -> (res: String)
    ensures
        res@ == privmsg(target@, text@),
{
    crate::action::privmsg_line(target, text)
}

// ---------------------------------------------------------------------------
// %ping
// ---------------------------------------------------------------------------

/// The standard library's `Instant`, carried through opaque.
#[verifier::external_type_specification]
#[verifier::external_body]
pub struct ExInstant(std::time::Instant);

/// Calls `std::time::Instant::now`; nothing is claimed of the instant.
#[verifier::external_body]
fn instant_now() -> (res: std::time::Instant) {
    std::time::Instant::now()
}

/// Calls `std::time::Instant::elapsed` and formats the duration with
/// `Debug`; the time elapsed is the machine's, so nothing is claimed of it.
#[verifier::external_body]
fn elapsed_text(start: &std::time::Instant) -> (res: String) {
    format!("{:?}", start.elapsed())
}

/// Answers `%ping` with the time it took.
pub struct PingCommand;

/// A message asks for `%ping`.
pub open spec fn ping_trigger(msg: Seq<char>) -> bool {
    has_substring(msg, "PRIVMSG"@) && has_substring(msg, ":%ping"@)
}

/// The answer to `%ping` that took `elapsed`.
pub open spec fn ping_reply(msg: Seq<char>, elapsed: Seq<char>) -> Seq<Seq<char>> {
    if ping_trigger(msg) {
        seq![privmsg(channel_of(msg), "PONG: "@ + elapsed)]
    } else {
        Seq::empty()
    }
}

impl PingCommand {
    /// The answer to `message`, given the time the answer took.
    pub fn reply(&self, message: &str, elapsed: &str) -> (res: Vec<String>)
        requires
            ping_trigger(message@) ==> has_substring(message@, "PRIVMSG "@),
        ensures
            strings_view(res@) == ping_reply(message@, elapsed@),
    {
        let msg = to_chars(message);
        let mut res: Vec<String> = Vec::new();
        if contains_str(&msg, "PRIVMSG") && contains_str(&msg, ":%ping") {
            let channel = channel_of_exec(&msg);
            let mut text = to_chars("PONG: ");
            extend_str(&mut text, elapsed);
            res.push(privmsg_string(&channel, &text));
        }
        assert(strings_view(res@) =~= ping_reply(message@, elapsed@));
        res
    }

    /// Answers `message`, timing the answer.
    pub fn handle(&self, message: &str) -> (res: Vec<String>)
        requires
            ping_trigger(message@) ==> has_substring(message@, "PRIVMSG "@),
        ensures
            exists|elapsed: Seq<char>| strings_view(res@) == ping_reply(message@, elapsed),
    {
        let start = instant_now();
        let elapsed = elapsed_text(&start);
        self.reply(message, elapsed.as_str())
    }
}

// ---------------------------------------------------------------------------
// %kill
// ---------------------------------------------------------------------------

/// `%kill` makes the bot exit.
pub struct KillCommand;

/// A message asks for `%kill`.
pub open spec fn kill_trigger(msg: Seq<char>) -> bool {
    has_substring(msg, "PRIVMSG"@) && has_substring(msg, ":%kill"@)
}

impl KillCommand {
    /// `Some` when the bot must exit at once, with the farewell it composes
    /// (the bot exits before sending it); `None` otherwise.
    pub fn handle(&self, message: &str) -> (res: Option<String>)
        requires
            kill_trigger(message@) ==> has_substring(message@, "PRIVMSG "@),
        ensures
            kill_trigger(message@) ==> (res matches Some(r) && r@ == privmsg(
                channel_of(message@),
                "SELF DESTRUCTING..."@,
            )),
            !kill_trigger(message@) ==> res is None,
    {
        let msg = to_chars(message);
        if contains_str(&msg, "PRIVMSG") && contains_str(&msg, ":%kill") {
            let channel = channel_of_exec(&msg);
            let text = to_chars("SELF DESTRUCTING...");
            Some(privmsg_string(&channel, &text))
        } else {
            None
        }
    }
}

// ---------------------------------------------------------------------------
// Invader bots
// ---------------------------------------------------------------------------

/// A server line that starts with `PING`, with every `PING` made `PONG`.
pub open spec fn pong(msg: Seq<char>) -> Option<Seq<char>> {
    if has_prefix(msg, "PING"@) {
        Some(replace_all(msg, "PING"@, "PONG"@))
    } else {
        None
    }
}

/// The answer of an invader bot to a `PING`.
pub fn pong_reply(message: &str) -> (res: Option<String>)
    ensures
        match pong(message@) {
            Some(p) => res matches Some(r) && r@ == p,
            None => res is None,
        },
{
    let msg = to_chars(message);
    if starts_with_str(&msg, "PING") {
        let ping = to_chars("PING");
        let pong = to_chars("PONG");
        proof {
            reveal_strlit("PING");
        }
        Some(from_chars(&replace(&msg, &ping, &pong)))
    } else {
        None
    }
}

/// `%invaders` sends every configured invader to scream in a channel.
pub struct InvadersCommand;

/// What `%invaders` does: the channel and the line each invader sends,
/// and the answer to the commander.
pub struct InvadersPlan {
    pub channel: String,
    pub scream_line: String,
    pub reply: String,
}

/// A message asks for `%invaders`.
pub open spec fn invaders_trigger(msg: Seq<char>) -> bool {
    has_substring(msg, "PRIVMSG"@) && has_substring(msg, ":%invaders"@)
}

impl InvadersCommand {
    /// Plans `%invaders` with `invader_count` configured invaders: the
    /// second word of the line is screamed in the channel named by the
    /// third.
    pub fn handle(&self, message: &str, invader_count: usize) -> (res: Option<InvadersPlan>)
        requires
            invaders_trigger(message@) ==> split_ws(message@).len() >= 3,
        ensures
            !invaders_trigger(message@) ==> res is None,
            invaders_trigger(message@) ==> (res matches Some(p) && {
                let parts = split_ws(message@);
                &&& p.channel@ == parts[2]
                &&& p.scream_line@ == privmsg(parts[2], parts[1])
                &&& p.reply@ == privmsg(
                    parts[2],
                    "Screaming \""@ + parts[1] + "\" through "@ + decimal(invader_count as nat)
                        + " invaders.."@,
                )
            }),
    {
        let msg = to_chars(message);
        if contains_str(&msg, "PRIVMSG") && contains_str(&msg, ":%invaders") {
            let parts = split_whitespace(&msg);
            let scream = &parts[1];
            let channel = &parts[2];
            let mut text = to_chars("Screaming \"");
            extend(&mut text, scream);
            extend_str(&mut text, "\" through ");
            let n = decimal_chars(invader_count as u64);
            extend(&mut text, &n);
            extend_str(&mut text, " invaders..");
            Some(
                InvadersPlan {
                    channel: from_chars(channel),
                    scream_line: privmsg_string(channel, scream),
                    reply: privmsg_string(channel, &text),
                },
            )
        } else {
            None
        }
    }
}

// ---------------------------------------------------------------------------
// %invade
// ---------------------------------------------------------------------------

/// An invasion: where the commander asked, which channel to invade, what
/// to scream there, how many invaders, and the answer to the commander.
pub struct InvasionPlan {
    pub channel: String,
    pub target: String,
    pub scream: String,
    pub count: usize,
    pub reply: String,
}

/// What a message asks of the invasion.
pub enum InvadeDecision {
    Invade(InvasionPlan),
    /// Stop every invader, answering the commander.
    Kill { reply: String },
    Ignore,
}

/// A message asks for `%invade`.
pub open spec fn invade_trigger(msg: Seq<char>) -> bool {
    has_substring(msg, "PRIVMSG"@) && has_substring(msg, ":%invade"@)
}

/// A message asks to stop the invaders.
pub open spec fn stop_trigger(msg: Seq<char>) -> bool {
    has_substring(msg, "PRIVMSG"@) && has_substring(msg, ":%%kill"@)
}

/// The number of invaders `%invade` asks for: the fifth word as a `u32`,
/// else 1.
pub open spec fn invader_count(parts: Seq<Seq<char>>) -> nat {
    match parse_u32_spec(parts[4]) {
        Some(n) => n,
        None => 1,
    }
}

/// Plans `%invade`, or stops the invasion on `%%kill`.
pub fn invade_decision(message: &str) -> (res: InvadeDecision)
    requires
        invade_trigger(message@) ==> split_ws(message@).len() >= 6,
        !invade_trigger(message@) && stop_trigger(message@) ==> has_substring(
            message@,
            "PRIVMSG "@,
        ),
    ensures
        invade_trigger(message@) ==> (res matches InvadeDecision::Invade(p) && {
            let parts = split_ws(message@);
            &&& p.channel@ == parts[2]
            &&& p.target@ == parts[5]
            &&& p.scream@ == (if parts.len() > 6 {
                parts[6]
            } else {
                Seq::empty()
            })
            &&& p.count == invader_count(parts)
            &&& p.reply@ == privmsg(
                parts[2],
                "\x0304,01[!] INVADING "@ + parts[5] + " WITH "@ + decimal(invader_count(parts))
                    + " INVADERS...\x0f"@,
            )
        }),
        !invade_trigger(message@) && stop_trigger(message@) ==> (res matches InvadeDecision::Kill {
            reply,
        } && reply@ == privmsg(channel_of(message@), "\x0304,01[!] TERMINATING ALL INVADERS...\x0f"@)),
        !invade_trigger(message@) && !stop_trigger(message@) ==> res is Ignore,
{
    let msg = to_chars(message);
    if contains_str(&msg, "PRIVMSG") && contains_str(&msg, ":%invade") {
        let parts = split_whitespace(&msg);
        let count: u32 = match parse_u32(&parts[4]) {
            Some(n) => n,
            None => 1,
        };
        let channel = &parts[2];
        let target = &parts[5];
        let scream: Vec<char> = if parts.len() > 6 {
            parts[6].clone()
        } else {
            Vec::new()
        };
        let mut text = to_chars("\x0304,01[!] INVADING ");
        extend(&mut text, target);
        extend_str(&mut text, " WITH ");
        let n = decimal_chars(count as u64);
        extend(&mut text, &n);
        extend_str(&mut text, " INVADERS...\x0f");
        InvadeDecision::Invade(
            InvasionPlan {
                channel: from_chars(channel),
                target: from_chars(target),
                scream: from_chars(&scream),
                count: count as usize,
                reply: privmsg_string(channel, &text),
            },
        )
    } else if contains_str(&msg, "PRIVMSG") && contains_str(&msg, ":%%kill") {
        let channel = channel_of_exec(&msg);
        let text = to_chars("\x0304,01[!] TERMINATING ALL INVADERS...\x0f");
        InvadeDecision::Kill { reply: privmsg_string(&channel, &text) }
    } else {
        InvadeDecision::Ignore
    }
}

/// A nonempty word of lower-case ASCII letters.
pub open spec fn lowercase_word(w: Seq<char>) -> bool {
    w.len() > 0 && forall|i: int| 0 <= i < w.len() ==> 'a' <= #[trigger] w[i] && w[i] <= 'z'
}

/// Calls `random_word::gen`; which word it picks is chance, and the crate's
/// word list (`words.csv`, the first field of each line) holds only
/// nonempty words of the letters `a` to `z`, so it claims that much.
#[verifier::external_body]
fn random_word_string() -> (res: String)
    ensures
        lowercase_word(res@),
{
    random_word::gen().to_string()
}

/// A random word for each of `count` invaders, to use as its nickname: a
/// nonempty word of lower-case letters.
pub fn invader_nicks(count: usize) -> (res: Vec<String>)
    ensures
        res@.len() == count,
        forall|i: int| 0 <= i < count ==> lowercase_word(#[trigger] res@[i]@),
{
    let mut res: Vec<String> = Vec::new();
    let mut i: usize = 0;
    while i < count
        invariant
            i <= count,
            res@.len() == i,
            forall|j: int| 0 <= j < i ==> lowercase_word(#[trigger] res@[j]@),
        decreases count - i,
    {
        res.push(random_word_string());
        i += 1;
    }
    res
}

/// `c` in lower case if it is an ASCII capital letter.
pub open spec fn ascii_lower(c: char) -> char {
    if 'A' <= c && c <= 'Z' {
        ((c as u32) + 32) as char
    } else {
        c
    }
}

/// The level-one leetspeak of one character: a b e g i l o r s t (in
/// either case) become 4 8 3 9 1 1 0 2 5 7.
pub open spec fn leet_char(c: char) -> Seq<char> {
    let l = ascii_lower(c);
    if l == 'a' {
        seq!['4']
    } else if l == 'b' {
        seq!['8']
    } else if l == 'e' {
        seq!['3']
    } else if l == 'g' {
        seq!['9']
    } else if l == 'i' || l == 'l' {
        seq!['1']
    } else if l == 'o' {
        seq!['0']
    } else if l == 'r' {
        seq!['2']
    } else if l == 's' {
        seq!['5']
    } else if l == 't' {
        seq!['7']
    } else {
        seq![c]
    }
}

/// The level-one leetspeak of a text, character by character.
pub open spec fn leet(s: Seq<char>) -> Seq<char>
    decreases s.len(),
{
    if s.len() == 0 {
        Seq::empty()
    } else {
        leet(s.drop_last()) + leet_char(s.last())
    }
}

/// Calls `leetspeak::translate_with_level` at `Level::One`; claims what the
/// crate's level-one table does: each character whose ASCII lower case is
/// in the table is replaced, every other character kept.
#[verifier::external_body]
pub(crate) fn leetspeak_one(text: &str) -> (res: String)
    ensures
        res@ == leet(text@),
{
    leetspeak::translate_with_level(text, &leetspeak::Level::One)
}

/// One invader bot: its nickname, the channel it invades, the commander's
/// channel, and what it screams.
pub struct InvaderSession {
    pub nick: String,
    pub channel: String,
    pub commander: String,
    pub scream: String,
}

/// The number of characters at the start of `s` before the first
/// whitespace.
pub open spec fn word_len(s: Seq<char>) -> nat
    decreases s.len(),
{
    if s.len() > 0 && !is_ws(s[0]) {
        1 + word_len(s.drop_first())
    } else {
        0
    }
}

/// The number of characters at the start of `s` before the first line
/// break.
pub open spec fn line_len(s: Seq<char>) -> nat
    decreases s.len(),
{
    if s.len() > 0 && s[0] != '\r' && s[0] != '\n' {
        1 + line_len(s.drop_first())
    } else {
        0
    }
}

/// The rest of the line after the first `:%%scream`.
pub open spec fn scream_tail(m: Seq<char>) -> Option<Seq<char>> {
    match first_occurrence(m, ":%%scream"@) {
        Some(p) => {
            let r = m.skip(p + 9);
            Some(r.take(line_len(r) as int))
        },
        None => None,
    }
}

/// The channel and text of `%%scream <channel> "<text>"`, as the pattern
/// `%%scream\s+([^"]+?)\s+"([^"]*?)"` takes them: `before` is what lies
/// between `%%scream` and the opening quote, `text` what lies between the
/// quotes.  Whitespace must open and close `before`, and the channel is
/// `before` trimmed; when `before` is whitespace only (three characters at
/// least) the channel is its next-to-last character.
pub open spec fn quoted_scream(before: Seq<char>, text: Seq<char>) -> Option<(Seq<char>, Seq<char>)> {
    let n = before.len();
    if leading_ws(before) == n {
        if n >= 3 {
            Some((before.subrange(n - 2, n - 1), text))
        } else {
            None
        }
    } else if leading_ws(before) >= 1 && trailing_ws(before) >= 1 {
        Some((trim(before), text))
    } else {
        None
    }
}

/// The channel and text of `%%scream <channel> <text>` written without
/// quotes: whitespace, the channel (the next word), whitespace, and the
/// rest of the line, trimmed, as the text.  `None` when the channel or the
/// text is missing.
pub open spec fn plain_scream(line: Seq<char>) -> Option<(Seq<char>, Seq<char>)> {
    let a = trim_start(line);
    let w = word_len(a);
    let rest = a.skip(w as int);
    if a.len() < line.len() && w > 0 && trim(rest).len() > 0 {
        Some((a.take(w as int), trim(rest)))
    } else {
        None
    }
}

/// The channel and text of a scream order, from the line that follows
/// `%%scream`: the quoted form when the line holds a pair of double
/// quotes, else the plain form.
pub open spec fn scream_args(line: Seq<char>) -> Option<(Seq<char>, Seq<char>)> {
    match first_occurrence(line, seq!['"']) {
        Some(q) => match first_occurrence(line.skip(q + 1), seq!['"']) {
            Some(q2) => quoted_scream(line.take(q), line.skip(q + 1).take(q2)),
            None => plain_scream(line),
        },
        None => plain_scream(line),
    }
}

/// A run of `k` characters that are not whitespace, ended by whitespace or
/// the end, is `word_len`.
pub proof fn lemma_word_len_char(s: Seq<char>, k: nat)
    requires
        k <= s.len(),
        forall|i: int| 0 <= i < k ==> !is_ws(#[trigger] s[i]),
        k < s.len() ==> is_ws(s[k as int]),
    ensures
        word_len(s) == k,
    decreases s.len(),
{
    if k > 0 {
        assert(!is_ws(s[0]));
        assert forall|i: int| 0 <= i < k - 1 implies !is_ws(#[trigger] s.drop_first()[i]) by {
            assert(s.drop_first()[i] == s[i + 1]);
        }
        if k - 1 < s.drop_first().len() {
            assert(s.drop_first()[k - 1] == s[k as int]);
        }
        lemma_word_len_char(s.drop_first(), (k - 1) as nat);
    }
}

/// A run of `k` characters without a line break, ended by one or by the
/// end, is `line_len`.
pub proof fn lemma_line_len_char(s: Seq<char>, k: nat)
    requires
        k <= s.len(),
        forall|i: int| 0 <= i < k ==> #[trigger] s[i] != '\r' && s[i] != '\n',
        k < s.len() ==> (s[k as int] == '\r' || s[k as int] == '\n'),
    ensures
        line_len(s) == k,
    decreases s.len(),
{
    if k > 0 {
        assert(s[0] != '\r' && s[0] != '\n');
        assert forall|i: int| 0 <= i < k - 1 implies #[trigger] s.drop_first()[i] != '\r'
            && s.drop_first()[i] != '\n' by {
            assert(s.drop_first()[i] == s[i + 1]);
        }
        if k - 1 < s.drop_first().len() {
            assert(s.drop_first()[k - 1] == s[k as int]);
        }
        lemma_line_len_char(s.drop_first(), (k - 1) as nat);
    }
}

/// The lines an invader sends to get in: its nickname and user, joining
/// the commander's channel and the invaded one, and its scream.
pub open spec fn invader_greeting(nick: Seq<char>, s: InvaderSession) -> Seq<Seq<char>> {
    seq![
        "NICK "@ + nick + "\r\n"@,
        "USER "@ + s.nick@ + " 0 * :"@ + s.nick@ + "\r\n"@,
        "JOIN "@ + s.commander@ + " \r\n"@,
        "JOIN "@ + s.channel@ + " \r\n"@,
        privmsg(s.channel@, s.scream@),
    ]
}

/// `%%join <channel>`: join it.
#[verifier::opaque]
pub open spec fn join_order(m: Seq<char>) -> Seq<Seq<char>> {
    if has_substring(m, "PRIVMSG"@) && has_substring(m, ":%%join"@) {
        match second_piece(m, ":%%join "@) {
            Some(c) => seq!["JOIN "@ + c + " \r\n"@],
            None => Seq::empty(),
        }
    } else {
        Seq::empty()
    }
}

/// `%%leave <channel>`: leave it.
#[verifier::opaque]
pub open spec fn leave_order(m: Seq<char>) -> Seq<Seq<char>> {
    if has_substring(m, "PRIVMSG"@) && has_substring(m, ":%%leave"@) {
        match second_piece(m, ":%%leave "@) {
            Some(c) => seq!["PART "@ + c + " \r\n"@],
            None => Seq::empty(),
        }
    } else {
        Seq::empty()
    }
}

/// `%%scream <channel> <text>`: scream the text there.
#[verifier::opaque]
pub open spec fn scream_order(m: Seq<char>) -> Seq<Seq<char>> {
    if has_substring(m, "PRIVMSG"@) {
        match scream_tail(m) {
            Some(line) => match scream_args(line) {
                Some(ct) => seq!["PRIVMSG "@ + ct.0 + " :"@ + ct.1 + "\r\n"@],
                None => Seq::empty(),
            },
            None => Seq::empty(),
        }
    } else {
        Seq::empty()
    }
}

/// The commander's orders reach the invaders through `PRIVMSG <commander>
/// :%%...`.
pub open spec fn addressed(s: InvaderSession, m: Seq<char>) -> bool {
    has_substring(m, "PRIVMSG "@ + s.commander@ + " :%%"@) && has_substring(m, ":%%"@)
}

/// The commander's `%%join`, `%%leave` and `%%scream` to the invaders.
pub open spec fn commander_orders(s: InvaderSession, m: Seq<char>) -> Seq<Seq<char>> {
    if addressed(s, m) {
        join_order(m) + leave_order(m) + scream_order(m)
    } else {
        Seq::empty()
    }
}

/// The orders that need a separator after them carry one.
pub open spec fn orders_well_formed(s: InvaderSession, m: Seq<char>) -> bool {
    addressed(s, m) ==> {
        &&& has_substring(m, ":%%join"@) ==> has_substring(m, ":%%join "@)
        &&& has_substring(m, ":%%leave"@) ==> has_substring(m, ":%%leave "@)
    }
}

/// How an invader answers what the server sent: `PONG` to a `PING`, a
/// leetspeak nickname and a fresh start when its nickname is taken
/// (`433`), and the commander's orders.
pub open spec fn invader_reaction(s: InvaderSession, received: Seq<char>) -> Seq<Seq<char>> {
    let m = trim(received);
    let r1 = match pong(m) {
        Some(p) => seq![p],
        None => Seq::empty(),
    };
    let r2 = if has_prefix(m, ":ircd.chat 433"@) {
        invader_greeting(leet(s.nick@), s)
    } else {
        Seq::empty()
    };
    r1 + r2 + commander_orders(s, m)
}

/// A `%%join` order (`join`), or a `%%leave` one.
fn channel_order(m: &Vec<char>, join: bool) -> (res: Vec<String>)
    ensures
        join ==> strings_view(res@) == join_order(m@),
        !join ==> strings_view(res@) == leave_order(m@),
{
    let mut res: Vec<String> = Vec::new();
    let word = if join {
        ":%%join"
    } else {
        ":%%leave"
    };
    if contains_str(m, "PRIVMSG") && contains_str(m, word) {
        let k = if join {
            to_chars(":%%join ")
        } else {
            to_chars(":%%leave ")
        };
        match second_piece_exec(m, &k) {
            Some(c) => {
                let mut line = if join {
                    to_chars("JOIN ")
                } else {
                    to_chars("PART ")
                };
                extend(&mut line, &c);
                extend_str(&mut line, " \r\n");
                push_line(&mut res, &line);
            },
            None => {},
        }
    }
    proof {
        reveal(join_order);
        reveal(leave_order);
    }
    assert(join ==> strings_view(res@) =~= join_order(m@));
    assert(!join ==> strings_view(res@) =~= leave_order(m@));
    res
}

fn word_len_exec(s: &Vec<char>) -> (res: usize)
    ensures
        res == word_len(s@),
{
    let mut k: usize = 0;
    while k < s.len() && !is_whitespace(s[k])
        invariant
            k <= s.len(),
            forall|i: int| 0 <= i < k ==> !is_ws(#[trigger] s@[i]),
        decreases s.len() - k,
    {
        k += 1;
    }
    proof {
        lemma_word_len_char(s@, k as nat);
    }
    k
}

fn line_len_exec(s: &Vec<char>) -> (res: usize)
    ensures
        res == line_len(s@),
{
    let mut k: usize = 0;
    while k < s.len() && s[k] != '\r' && s[k] != '\n'
        invariant
            k <= s.len(),
            forall|i: int| 0 <= i < k ==> #[trigger] s@[i] != '\r' && s@[i] != '\n',
        decreases s.len() - k,
    {
        k += 1;
    }
    proof {
        lemma_line_len_char(s@, k as nat);
    }
    k
}

fn quoted_scream_exec(before: &Vec<char>, text: Vec<char>) -> (res: Option<(Vec<char>, Vec<char>)>)
    ensures
        match quoted_scream(before@, text@) {
            Some(ct) => res matches Some(r) && r.0@ == ct.0 && r.1@ == ct.1,
            None => res is None,
        },
{
    let n = before.len();
    let a = trim_start_chars(before);
    proof {
        lemma_leading_ws(before@);
    }
    if a.len() == 0 {
        if n >= 3 {
            let c = slice(before, n - 2, n - 1);
            Some((c, text))
        } else {
            None
        }
    } else if is_whitespace(before[0]) && is_whitespace(before[n - 1]) {
        assert(before@.last() == before@[n - 1]);
        Some((trim_chars(before), text))
    } else {
        assert(before@.last() == before@[n - 1]);
        None
    }
}

fn plain_scream_exec(line: &Vec<char>) -> (res: Option<(Vec<char>, Vec<char>)>)
    ensures
        match plain_scream(line@) {
            Some(ct) => res matches Some(r) && r.0@ == ct.0 && r.1@ == ct.1,
            None => res is None,
        },
{
    let a = trim_start_chars(line);
    proof {
        lemma_leading_ws(line@);
    }
    if a.len() < line.len() {
        let w = word_len_exec(&a);
        proof {
            lemma_word_len_char_bound(a@);
        }
        if w > 0 {
            let rest = slice(&a, w, a.len());
            assert(rest@ =~= a@.skip(w as int));
            let t = trim_chars(&rest);
            if t.len() > 0 {
                let channel = slice(&a, 0, w);
                assert(channel@ =~= a@.take(w as int));
                return Some((channel, t));
            }
        }
    }
    None
}

fn scream_args_exec(line: &Vec<char>) -> (res: Option<(Vec<char>, Vec<char>)>)
    ensures
        match scream_args(line@) {
            Some(ct) => res matches Some(r) && r.0@ == ct.0 && r.1@ == ct.1,
            None => res is None,
        },
{
    let mut quote: Vec<char> = Vec::new();
    quote.push('"');
    assert(quote@ =~= seq!['"']);
    match find(line, &quote) {
        Some(q) => {
            assert(occurs_at(line@, quote@, q as int));
            let n = line.len();
            let rest = slice(line, q + 1, n);
            assert(rest@ =~= line@.skip(q + 1));
            match find(&rest, &quote) {
                Some(q2) => {
                    assert(occurs_at(rest@, quote@, q2 as int));
                    let before = slice(line, 0, q);
                    assert(before@ =~= line@.take(q as int));
                    let text = slice(&rest, 0, q2);
                    assert(text@ =~= rest@.take(q2 as int));
                    quoted_scream_exec(&before, text)
                },
                None => plain_scream_exec(line),
            }
        },
        None => plain_scream_exec(line),
    }
}

/// A `%%scream` order.
fn scream_order_exec(m: &Vec<char>) -> (res: Vec<String>)
    ensures
        strings_view(res@) == scream_order(m@),
{
    let mut res: Vec<String> = Vec::new();
    if contains_str(m, "PRIVMSG") {
        let key = to_chars(":%%scream");
        proof {
            reveal_strlit(":%%scream");
        }
        match find(m, &key) {
            Some(p) => {
                assert(occurs_at(m@, key@, p as int));
                assert(key@.len() == 9);
                let len = m.len();
                assert(p + 9 <= len);
                let r = slice(m, p + 9, len);
                assert(r@ =~= m@.skip(p + 9));
                let n = line_len_exec(&r);
                proof {
                    lemma_line_len_bound(r@);
                }
                let l = slice(&r, 0, n);
                assert(l@ =~= r@.take(n as int));
                match scream_args_exec(&l) {
                    Some((c, t)) => {
                        let mut line = to_chars("PRIVMSG ");
                        extend(&mut line, &c);
                        extend_str(&mut line, " :");
                        extend(&mut line, &t);
                        extend_str(&mut line, "\r\n");
                        push_line(&mut res, &line);
                    },
                    None => {},
                }
            },
            None => {},
        }
    }
    proof {
        reveal(scream_order);
    }
    assert(strings_view(res@) =~= scream_order(m@));
    res
}

proof fn lemma_word_len_char_bound(s: Seq<char>)
    ensures
        word_len(s) <= s.len(),
    decreases s.len(),
{
    if s.len() > 0 {
        lemma_word_len_char_bound(s.drop_first());
    }
}

proof fn lemma_line_len_bound(s: Seq<char>)
    ensures
        line_len(s) <= s.len(),
    decreases s.len(),
{
    if s.len() > 0 {
        lemma_line_len_bound(s.drop_first());
    }
}

fn greeting_exec(nick: &Vec<char>, s: &InvaderSession) -> (res: Vec<String>)
    ensures
        strings_view(res@) == invader_greeting(nick@, *s),
{
    let mut res: Vec<String> = Vec::new();
    let mut a = to_chars("NICK ");
    extend(&mut a, nick);
    extend_str(&mut a, "\r\n");
    res.push(from_chars(&a));
    let mut b = to_chars("USER ");
    extend_str(&mut b, s.nick.as_str());
    extend_str(&mut b, " 0 * :");
    extend_str(&mut b, s.nick.as_str());
    extend_str(&mut b, "\r\n");
    res.push(from_chars(&b));
    let mut c = to_chars("JOIN ");
    extend_str(&mut c, s.commander.as_str());
    extend_str(&mut c, " \r\n");
    res.push(from_chars(&c));
    let mut d = to_chars("JOIN ");
    extend_str(&mut d, s.channel.as_str());
    extend_str(&mut d, " \r\n");
    res.push(from_chars(&d));
    let chan = to_chars(s.channel.as_str());
    let scream = to_chars(s.scream.as_str());
    res.push(privmsg_string(&chan, &scream));
    assert(strings_view(res@) =~= invader_greeting(nick@, *s));
    res
}

fn push_line(res: &mut Vec<String>, line: &Vec<char>)
    ensures
        strings_view(final(res)@) == strings_view(old(res)@).push(line@),
{
    let l = from_chars(line);
    proof {
        lemma_strings_view_push(res@, l);
    }
    res.push(l);
}

impl InvaderSession {
    /// The lines the invader sends once connected.
    pub fn greeting(&self) -> (res: Vec<String>)
        ensures
            strings_view(res@) == invader_greeting(self.nick@, *self),
    {
        let nick = to_chars(self.nick.as_str());
        greeting_exec(&nick, self)
    }

    /// The commander's orders found in the trimmed message `m`.
    fn orders(&self, m: &Vec<char>) -> (res: Vec<String>)
        requires
            orders_well_formed(*self, m@),
        ensures
            strings_view(res@) == commander_orders(*self, m@),
    {
        let mut key = to_chars("PRIVMSG ");
        extend_str(&mut key, self.commander.as_str());
        extend_str(&mut key, " :%%");
        assert(key@ =~= "PRIVMSG "@ + self.commander@ + " :%%"@);
        if contains(m, &key) && contains_str(m, ":%%") {
            let mut o = channel_order(m, true);
            let mut l = channel_order(m, false);
            let mut sc = scream_order_exec(m);
            let ghost (a, b, c) = (o@, l@, sc@);
            o.append(&mut l);
            o.append(&mut sc);
            assert(strings_view(o@) =~= strings_view(a) + strings_view(b) + strings_view(c));
            o
        } else {
            Vec::new()
        }
    }

    /// The invader's answer to what it received (read as text).
    pub fn react(&self, received: &str) -> (res: Vec<String>)
        requires
            orders_well_formed(*self, trim(received@)),
        ensures
            strings_view(res@) == invader_reaction(*self, received@),
    {
        let raw = to_chars(received);
        let m = trim_chars(&raw);
        let ms = from_chars(&m);
        let mut res: Vec<String> = Vec::new();
        match pong_reply(ms.as_str()) {
            Some(p) => {
                res.push(p);
            },
            None => {},
        }
        let ghost r1 = strings_view(res@);
        assert(r1 =~= match pong(m@) {
            Some(p) => seq![p],
            None => Seq::<Seq<char>>::empty(),
        });
        if starts_with_str(&m, ":ircd.chat 433") {
            let leet_nick = leetspeak_one(self.nick.as_str());
            let lv = to_chars(leet_nick.as_str());
            let mut more = greeting_exec(&lv, self);
            let ghost r0 = res@;
            let ghost m0 = more@;
            res.append(&mut more);
            assert(strings_view(res@) =~= strings_view(r0) + strings_view(m0));
        }
        let ghost r12 = strings_view(res@);
        let mut o = self.orders(&m);
        let ghost r0 = res@;
        let ghost o0 = o@;
        res.append(&mut o);
        assert(strings_view(res@) =~= strings_view(r0) + strings_view(o0));
        assert(strings_view(res@) =~= invader_reaction(*self, received@));
        res
    }
}

} // verus!
