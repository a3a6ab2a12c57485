//! Chatting through a language model when the bot's nick is mentioned:
//! which messages are answered, what the model is told, and how its answer
//! is sent back.  The model itself is reached by the caller.
use crate::action::privmsg;
use crate::commands::{channel_of, channel_of_exec};
use crate::pattern::{regex_compiles, regex_is_valid, regex_replace_all, regex_replace_every};
use crate::text::{
    before, before_exec, contains, extend, extend_str, from_chars, has_prefix, has_substring,
    lemma_strings_view_push, replace, replace_all, second_piece,
    second_piece_exec, seqs_view, split_char, split_on, strings_view, strip_leading,
    strip_leading_exec, to_chars, trim, trim_chars,
};
use vstd::prelude::*;

verus! {

/// Answers chat messages that mention the bot.
pub struct Ai;

/// A message for the model: where it was said, what was said to the bot,
/// and by whom.
pub struct AiRequest {
    pub channel: String,
    pub user_message: String,
    pub username: String,
}

/// A message is for the model: a server line that carries a `PRIVMSG`
/// and mentions the bot's nick.
pub open spec fn ai_trigger(msg: Seq<char>, nick: Seq<char>) -> bool {
    has_prefix(msg, ":"@) && has_substring(msg, "PRIVMSG "@) && has_substring(msg, nick)
}

/// The message without the bot's nick followed by a space.
pub open spec fn without_nick(msg: Seq<char>, nick: Seq<char>) -> Seq<char> {
    replace_all(msg, nick + " "@, Seq::empty())
}

/// What was said to the bot: the text after `PRIVMSG <channel> :` in the
/// message without the nick.
pub open spec fn user_message_of(msg: Seq<char>, nick: Seq<char>) -> Option<Seq<char>> {
    second_piece(without_nick(msg, nick), "PRIVMSG "@ + channel_of(msg) + " :"@)
}

/// Who said it: the sender's nick, from the prefix before the first space.
pub open spec fn username_of(msg: Seq<char>) -> Seq<char> {
    before(strip_leading(before(msg, " "@), ':'), "!"@)
}

fn user_message_exec(msg: &Vec<char>, nick: &Vec<char>, channel: &Vec<char>) -> (res: Vec<char>)
    requires
        channel@ == channel_of(msg@),
    ensures
        user_message_of(msg@, nick@) matches Some(u) ==> res@ == u,
{
    let mut key = nick.clone();
    extend_str(&mut key, " ");
    assert(key@ =~= nick@ + " "@);
    proof {
        reveal_strlit(" ");
    }
    let cleaned = replace(msg, &key, &Vec::new());
    let mut sep = to_chars("PRIVMSG ");
    extend(&mut sep, channel);
    extend_str(&mut sep, " :");
    match second_piece_exec(&cleaned, &sep) {
        Some(u) => u,
        None => Vec::new(),
    }
}

fn username_exec(msg: &Vec<char>) -> (res: Vec<char>)
    ensures
        res@ == username_of(msg@),
{
    let space = to_chars(" ");
    let bang = to_chars("!");
    let prefix = before_exec(msg, &space);
    let stripped = strip_leading_exec(&prefix, ':');
    before_exec(&stripped, &bang)
}

impl Ai {
    /// The request for the model that `message` makes, if it mentions
    /// `nick`.
    pub fn handle(&self, message: &str, nick: &str) -> (res: Option<AiRequest>)
        requires
            ai_trigger(message@, nick@) ==> user_message_of(message@, nick@) is Some,
        ensures
            !ai_trigger(message@, nick@) ==> res is None,
            ai_trigger(message@, nick@) ==> (res matches Some(r) && {
                &&& r.channel@ == channel_of(message@)
                &&& Some(r.user_message@) == user_message_of(message@, nick@)
                &&& r.username@ == username_of(message@)
            }),
    {
        let msg = to_chars(message);
        let n = to_chars(nick);
        if crate::text::starts_with_str(&msg, ":") && crate::text::contains_str(&msg, "PRIVMSG ")
            && contains(&msg, &n) {
            let channel = channel_of_exec(&msg);
            let user_message = user_message_exec(&msg, &n, &channel);
            let username = username_exec(&msg);
            Some(
                AiRequest {
                    channel: from_chars(&channel),
                    user_message: from_chars(&user_message),
                    username: from_chars(&username),
                },
            )
        } else {
            None
        }
    }
}

/// The instructions given to the model.
pub open spec fn system_prompt_text(
    accents: Seq<char>,
    personalities: Seq<char>,
    username: Seq<char>,
) -> Seq<char> {
    "Respond "@ + accents + " as you are chatting as "@ + personalities
        + ", The following is a chat message to you from "@ + username
        + " dont mention that you are who you are they can see that:"@
}

/// The instructions given to the model.
pub fn system_prompt(accents: &str, personalities: &str, username: &str) -> (res: String)
    ensures
        res@ == system_prompt_text(accents@, personalities@, username@),
{
    let mut v = to_chars("Respond ");
    extend_str(&mut v, accents);
    extend_str(&mut v, " as you are chatting as ");
    extend_str(&mut v, personalities);
    extend_str(&mut v, ", The following is a chat message to you from ");
    extend_str(&mut v, username);
    extend_str(&mut v, " dont mention that you are who you are they can see that:");
    from_chars(&v)
}

// ---------------------------------------------------------------------------
// The answer
// ---------------------------------------------------------------------------

/// What `str::to_lowercase` gives for `s`.
pub uninterp spec fn lowercase(s: Seq<char>) -> Seq<char>;

/// Calls `str::to_lowercase`; claims that the result is the named
/// `lowercase` of the text.
#[verifier::external_body]
pub(crate) fn to_lowercase(s: &str) -> (res: String)
    ensures
        res@ == lowercase(s@),
{
    s.to_lowercase()
}

/// The characters removed from the model's answer: double quotes, and the
/// bot's own name (g1r, in any case) followed by whitespace.
pub open spec fn answer_filter() -> Seq<char> {
    "\"|[gG][1iI][rR]\\s"@
}

/// The lines of `s` that are not blank.
pub open spec fn nonblank(lines: Seq<Seq<char>>) -> Seq<Seq<char>>
    decreases lines.len(),
{
    if lines.len() == 0 {
        Seq::empty()
    } else if trim(lines.last()).len() > 0 {
        nonblank(lines.drop_last()).push(lines.last())
    } else {
        nonblank(lines.drop_last())
    }
}

/// A line with `*`s: the pieces between them alternate between speech
/// (trimmed) and actions (`/me`, in lower case).
pub open spec fn star_lines(channel: Seq<char>, pieces: Seq<Seq<char>>) -> Seq<Seq<char>> {
    Seq::new(
        pieces.len(),
        |i: int|
            if i % 2 == 1 {
                privmsg(channel, "\x01ACTION "@ + lowercase(pieces[i]) + "\x01"@)
            } else {
                privmsg(channel, trim(pieces[i]))
            },
    )
}

/// How one line of the answer is sent; the first line is addressed to the
/// user unless it names them already.
pub open spec fn reply_line(channel: Seq<char>, username: Seq<char>, line: Seq<char>, first: bool) -> Seq<
    Seq<char>,
> {
    if line.contains('*') {
        star_lines(channel, split_char(line, '*'))
    } else if first && !has_substring(line, username) {
        seq![privmsg(channel, "\x0313"@ + username + "\x0f: "@ + line)]
    } else {
        seq![privmsg(channel, line)]
    }
}

/// How all lines of the answer are sent.
pub open spec fn reply_lines(channel: Seq<char>, username: Seq<char>, lines: Seq<Seq<char>>) -> Seq<
    Seq<char>,
>
    decreases lines.len(),
{
    if lines.len() == 0 {
        Seq::empty()
    } else {
        reply_lines(channel, username, lines.drop_last()) + reply_line(
            channel,
            username,
            lines.last(),
            lines.len() == 1,
        )
    }
}

/// The messages for an answer from which the filter already removed what
/// it removes: trimmed, split into lines, blank lines dropped.
pub open spec fn answer_messages(filtered: Seq<char>, username: Seq<char>, channel: Seq<char>) -> Seq<
    Seq<char>,
> {
    reply_lines(channel, username, nonblank(split_char(trim(filtered), '\n')))
}

fn star_lines_exec(channel: &Vec<char>, line: &Vec<char>) -> (res: Vec<String>)
    ensures
        strings_view(res@) == star_lines(channel@, split_char(line@, '*')),
{
    let pieces = split_on(line, '*');
    let ghost pv = seqs_view(pieces@);
    let mut res: Vec<String> = Vec::new();
    let mut i: usize = 0;
    while i < pieces.len()
        invariant
            i <= pieces.len(),
            pv == seqs_view(pieces@),
            pv == split_char(line@, '*'),
            strings_view(res@) == star_lines(channel@, pv).take(i as int),
        decreases pieces.len() - i,
    {
        let l = if i % 2 == 1 {
            let p = from_chars(&pieces[i]);
            let low = to_lowercase(p.as_str());
            let mut t = to_chars("\x01ACTION ");
            extend_str(&mut t, low.as_str());
            extend_str(&mut t, "\x01");
            crate::action::privmsg_line(channel, &t)
        } else {
            let t = trim_chars(&pieces[i]);
            crate::action::privmsg_line(channel, &t)
        };
        proof {
            lemma_strings_view_push(res@, l);
        }
        res.push(l);
        assert(star_lines(channel@, pv).take(i + 1) =~= star_lines(channel@, pv).take(
            i as int,
        ).push(star_lines(channel@, pv)[i as int]));
        i += 1;
    }
    assert(star_lines(channel@, pv).take(pieces.len() as int) =~= star_lines(channel@, pv));
    res
}

fn reply_line_exec(channel: &Vec<char>, username: &Vec<char>, line: &Vec<char>, first: bool) -> (res:
    Vec<String>)
    ensures
        strings_view(res@) == reply_line(channel@, username@, line@, first),
{
    let mut star = false;
    let mut i: usize = 0;
    while i < line.len()
        invariant
            i <= line.len(),
            star == exists|j: int| 0 <= j < i && line@[j] == '*',
        decreases line.len() - i,
    {
        if line[i] == '*' {
            star = true;
        }
        i += 1;
    }
    assert(star == line@.contains('*'));
    if star {
        star_lines_exec(channel, line)
    } else {
        let mut res: Vec<String> = Vec::new();
        if first && !contains(line, username) {
            let mut t = to_chars("\x0313");
            extend(&mut t, username);
            extend_str(&mut t, "\x0f: ");
            extend(&mut t, line);
            res.push(crate::action::privmsg_line(channel, &t));
        } else {
            res.push(crate::action::privmsg_line(channel, line));
        }
        assert(strings_view(res@) =~= reply_line(channel@, username@, line@, first));
        res
    }
}

/// The messages for an answer the filter was already applied to.
pub fn format_ai_reply(filtered: &str, username: &str, channel: &str) -> (res: Vec<String>)
    ensures
        strings_view(res@) == answer_messages(filtered@, username@, channel@),
{
    let text = to_chars(filtered);
    let t = trim_chars(&text);
    let lines = split_on(&t, '\n');
    let ghost lv = seqs_view(lines@);
    let user = to_chars(username);
    let chan = to_chars(channel);
    let mut kept: Vec<Vec<char>> = Vec::new();
    let mut i: usize = 0;
    assert(lv.take(0) =~= Seq::<Seq<char>>::empty());
    while i < lines.len()
        invariant
            i <= lines.len(),
            lv == seqs_view(lines@),
            seqs_view(kept@) == nonblank(lv.take(i as int)),
        decreases lines.len() - i,
    {
        let l = trim_chars(&lines[i]);
        assert(lv.take(i + 1).drop_last() =~= lv.take(i as int));
        assert(lv.take(i + 1).last() == lines@[i as int]@);
        if l.len() > 0 {
            let c = lines[i].clone();
            proof {
                crate::text::lemma_seqs_view_push(kept@, c);
            }
            kept.push(c);
        }
        i += 1;
    }
    assert(lv.take(lines.len() as int) =~= lv);
    let ghost kv = seqs_view(kept@);
    let mut res: Vec<String> = Vec::new();
    let mut k: usize = 0;
    assert(kv.take(0) =~= Seq::<Seq<char>>::empty());
    while k < kept.len()
        invariant
            k <= kept.len(),
            kv == seqs_view(kept@),
            strings_view(res@) == reply_lines(chan@, user@, kv.take(k as int)),
        decreases kept.len() - k,
    {
        let mut more = reply_line_exec(&chan, &user, &kept[k], k == 0);
        let ghost r0 = res@;
        let ghost m0 = more@;
        res.append(&mut more);
        assert(strings_view(res@) =~= strings_view(r0) + strings_view(m0));
        assert(kv.take(k + 1).drop_last() =~= kv.take(k as int));
        assert(kv.take(k + 1).last() == kept@[k as int]@);
        k += 1;
    }
    assert(kv.take(kept.len() as int) =~= kv);
    res
}

/// The messages for the model's answer: the answer trimmed, the filter
/// applied, then formatted.  `None` only if the filter's pattern were
/// refused by the `regex` crate.
pub fn ai_reply(answer: &str, username: &str, channel: &str) -> (res: Option<Vec<String>>)
    ensures
        regex_compiles(answer_filter()) ==> (res matches Some(v) && strings_view(v@)
            == answer_messages(
            regex_replace_every(answer_filter(), trim(answer@), Seq::empty()),
            username@,
            channel@,
        )),
        !regex_compiles(answer_filter()) ==> res is None,
{
    let pattern = "\"|[gG][1iI][rR]\\s";
    if !regex_is_valid(pattern) {
        return None;
    }
    let a = to_chars(answer);
    let t = from_chars(&trim_chars(&a));
    let filtered = regex_replace_all(pattern, t.as_str(), "");
    proof {
        reveal_strlit("");
    }
    assert(""@ =~= Seq::<char>::empty());
    Some(format_ai_reply(filtered.as_str(), username, channel))
}

} // verus!
