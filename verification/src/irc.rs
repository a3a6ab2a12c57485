//! The bot's conversation with the server: what it sends on connecting,
//! and how it answers each line the server sends.
use crate::action::{actions_view, append_actions, lemma_actions_view_push, privmsg, Action, ActionView};
use crate::ascii::{ascii_request, handle_ascii_command};
use crate::config::{view_or, Config};
use crate::drugs::{counters_below_max, dice_ok, drugs_step, DrugDice, Drugs, Stats};
use crate::sasl::{
    handle_sasl_messages, nick_lines, nickme, opt_strings, sasl_reply, sasl_start_lines,
    start_sasl_auth,
};
use crate::sed::{after_add, parse_sed, sed_on_messages, MessageBuffer, SedCommand};
use crate::text::{
    eq_str, extend, extend_str, find, first_occurrence, from_chars, has_prefix, is_ws, join,
    join_from, replace, replace_all, seqs_view, slice, split_char, split_on, split_ws,
    starts_with_str, strings_view, to_chars, trim, trim_chars, lemma_split_char_nonempty,
};
use crate::vomit::{rolls_ok, vomit_actions, vomit_actions_from, vomit_length, VomitRoll};
use vstd::prelude::*;

verus! {

// ---------------------------------------------------------------------------
// Registration
// ---------------------------------------------------------------------------

/// The real name: the configured one, else the nickname.
pub open spec fn realname_of(config: Config) -> Seq<char> {
    view_or(config.realname, config.nickname@)
}

/// The SASL password, empty when none is configured.
pub open spec fn password_of(config: Config) -> Seq<char> {
    view_or(config.sasl_password, Seq::empty())
}

/// The SASL user name, empty when none is configured.
pub open spec fn username_of(config: Config) -> Seq<char> {
    view_or(config.sasl_username, Seq::empty())
}

/// Both SASL settings are present (the bot refuses to run without them).
pub open spec fn has_sasl_settings(config: Config) -> bool {
    config.sasl_username is Some && config.sasl_password is Some
}

/// What the bot sends on connecting, and whether SASL is under way after:
/// SASL starts when a password is set and it has not started before, else
/// the bot just registers its nickname.
pub open spec fn registration(config: Config, sasl_started: bool) -> (bool, Seq<Seq<char>>) {
    if password_of(config).len() > 0 && !sasl_started {
        (
            true,
            sasl_start_lines(config.nickname@, realname_of(config), opt_strings(config.capabilities)),
        )
    } else {
        (sasl_started, nick_lines(config.nickname@, realname_of(config)))
    }
}

/// The lines sent on connecting; `sasl_started` says whether SASL was
/// started on an earlier connection.
pub fn register(config: &Config, sasl_started: bool) -> (res: (bool, Vec<String>))
    requires
        has_sasl_settings(*config),
    ensures
        (res.0, strings_view(res.1@)) == registration(*config, sasl_started),
{
    let realname: &str = match &config.realname {
        Some(r) => r.as_str(),
        None => config.nickname.as_str(),
    };
    let password: &str = match &config.sasl_password {
        Some(p) => p.as_str(),
        None => "",
    };
    proof {
        reveal_strlit("");
    }
    let empty_password = to_chars(password).len() == 0;
    if !empty_password && !sasl_started {
        let lines = start_sasl_auth("PLAIN", config.nickname.as_str(), realname, &config.capabilities);
        (true, lines)
    } else {
        (sasl_started, nickme(config.nickname.as_str(), realname))
    }
}

// ---------------------------------------------------------------------------
// Answering the server
// ---------------------------------------------------------------------------

/// The state the bot keeps across lines.
pub struct BotState {
    /// Whether SASL authentication was started.
    pub sasl_auth: bool,
    /// The recent channel messages, for `s///` corrections.
    pub buffer: MessageBuffer,
    /// The drink and smoke state.
    pub drugs: Drugs,
}

/// Every random draw answering one line may make.
pub struct LineDice {
    pub drugs: DrugDice,
    /// One roll per character of `%vomit`.
    pub vomit: Vec<VomitRoll>,
}

/// Raw lines as actions.
pub open spec fn send_all(lines: Seq<Seq<char>>) -> Seq<ActionView> {
    lines.map_values(|l: Seq<char>| ActionView::Send(l))
}

/// The words of a server line: the trimmed line split at each space.
pub open spec fn line_parts(line: Seq<char>) -> Seq<Seq<char>> {
    split_char(trim(line), ' ')
}

/// Word `i`, empty when there are fewer words.
pub open spec fn part_or_empty(parts: Seq<Seq<char>>, i: int) -> Seq<char> {
    if 0 <= i < parts.len() {
        parts[i]
    } else {
        Seq::empty()
    }
}

/// The text of a `PRIVMSG`: the words from the fourth on, joined by
/// spaces, without their first `:`.
pub open spec fn privmsg_text(parts: Seq<Seq<char>>) -> Seq<char> {
    if parts.len() > 3 {
        let rest = join(parts.skip(3), " "@);
        match first_occurrence(rest, seq![':']) {
            Some(p) => rest.take(p) + rest.skip(p + 1),
            None => rest,
        }
    } else {
        Seq::empty()
    }
}

/// The commands that go to the drink and smoke handler.
pub open spec fn is_drug_command(text: Seq<char>) -> bool {
    ||| has_prefix(text, "%chug"@)
    ||| has_prefix(text, "%smoke"@)
    ||| has_prefix(text, "%toke"@)
    ||| has_prefix(text, "%100"@)
    ||| has_prefix(text, "%extendo"@)
    ||| has_prefix(text, "%fatfuck"@)
    ||| has_prefix(text, "%beer"@)
}

/// The answers to server commands other than `PRIVMSG`: SASL steps while
/// SASL is under way, `MODE <nick> +B` on welcome (`001`), joining the
/// configured channels at the end of the MOTD (`376`), rejoining after
/// being kicked.
pub open spec fn server_replies(config: Config, sasl: bool, msg: Seq<char>) -> Seq<ActionView> {
    let parts = split_char(msg, ' ');
    let cmd = part_or_empty(parts, 1);
    let nick = config.nickname@;
    let a1 = if (cmd == "CAP"@ || has_prefix(msg, "AUTHENTICATE +"@) || cmd == "903"@) && sasl {
        send_all(sasl_reply(msg, username_of(config), password_of(config), nick))
    } else {
        Seq::empty()
    };
    let a2 = if cmd == "001"@ {
        seq![ActionView::Send("MODE "@ + nick + " +B\r\n"@)]
    } else {
        Seq::empty()
    };
    let a3 = if cmd == "376"@ {
        strings_view(config.channels@).map_values(
            |c: Seq<char>| ActionView::Send("JOIN "@ + c + "\r\n"@),
        )
    } else {
        Seq::empty()
    };
    let a4 = if cmd == "KICK"@ && part_or_empty(parts, 3) == nick {
        seq![ActionView::Send("JOIN "@ + part_or_empty(parts, 2) + "\r\n"@)]
    } else {
        Seq::empty()
    };
    a1 + a2 + a3 + a4
}

/// What a `PRIVMSG` does: an `s/…/…/` command corrects the latest message
/// it matches and says the corrected text, anything else is remembered;
/// `%ascii`, `%vomit` and the drink and smoke commands are served.
pub open spec fn privmsg_step(
    msgs: Seq<Seq<char>>,
    capacity: nat,
    drugs: Drugs,
    config: Config,
    parts: Seq<Seq<char>>,
    dice: LineDice,
) -> (Seq<Seq<char>>, Drugs, Seq<ActionView>) {
    let channel = part_or_empty(parts, 2);
    let text = privmsg_text(parts);
    let (msgs1, b1) = if has_prefix(text, "s/"@) {
        match parse_sed(text) {
            Some(c) => {
                let (m, answer) = sed_on_messages(msgs, c);
                (
                    m,
                    match answer {
                        Some(a) => seq![ActionView::Send(privmsg(channel, a))],
                        None => Seq::empty(),
                    },
                )
            },
            None => (msgs, Seq::empty()),
        }
    } else {
        (after_add(msgs, capacity, text), Seq::empty())
    };
    let b2 = if has_prefix(text, "%ascii"@) {
        ascii_request(config, text, channel)
    } else {
        Seq::empty()
    };
    let b3 = if has_prefix(text, "%vomit"@) {
        vomit_actions(channel, dice.vomit@, config.pump_delay)
    } else {
        Seq::empty()
    };
    let (drugs1, b4) = if is_drug_command(text) {
        drugs_step(drugs, text, channel, dice.drugs)
    } else {
        (drugs, Seq::empty())
    };
    (msgs1, drugs1, b1 + b2 + b3 + b4)
}

/// How the bot answers one line from the server, for the given draws:
/// blank lines are ignored, `PING` is answered with `PONG` (and nothing
/// else), then the other server commands and `PRIVMSG`.
pub open spec fn line_step(
    sasl: bool,
    msgs: Seq<Seq<char>>,
    capacity: nat,
    drugs: Drugs,
    config: Config,
    line: Seq<char>,
    dice: LineDice,
) -> (Seq<Seq<char>>, Drugs, Seq<ActionView>) {
    let msg = trim(line);
    let parts = split_char(msg, ' ');
    if msg.len() == 0 {
        (msgs, drugs, Seq::empty())
    } else if parts[0] == "PING"@ {
        (msgs, drugs, seq![ActionView::Send(replace_all(msg, "PING"@, "PONG"@) + "\r\n"@)])
    } else {
        let a = server_replies(config, sasl, msg);
        if part_or_empty(parts, 1) == "PRIVMSG"@ {
            let (m, d, b) = privmsg_step(msgs, capacity, drugs, config, parts, dice);
            (m, d, a + b)
        } else {
            (msgs, drugs, a)
        }
    }
}

/// The text of the `PRIVMSG` a line carries, empty when it carries none.
pub open spec fn line_text(line: Seq<char>) -> Seq<char> {
    let parts = line_parts(line);
    if part_or_empty(parts, 1) == "PRIVMSG"@ {
        privmsg_text(parts)
    } else {
        Seq::empty()
    }
}

/// Valid draws for a line: valid drink and smoke draws, and as many valid
/// vomit rolls as a `%vomit` in the line asks for.
pub open spec fn line_dice_ok(line: Seq<char>, dice: LineDice) -> bool {
    &&& dice_ok(dice.drugs)
    &&& rolls_ok(dice.vomit@)
    &&& has_prefix(line_text(line), "%vomit"@) ==> dice.vomit@.len() == vomit_length(line_text(line))
}

// ----- executable pieces -----

fn raw_actions(lines: Vec<String>) -> (res: Vec<Action>)
    ensures
        actions_view(res@) == send_all(strings_view(lines@)),
{
    let ghost lv = strings_view(lines@);
    let mut res: Vec<Action> = Vec::new();
    let mut k: usize = 0;
    assert(lv.take(0) =~= Seq::<Seq<char>>::empty());
    while k < lines.len()
        invariant
            k <= lines@.len(),
            lv == strings_view(lines@),
            actions_view(res@) == send_all(lv.take(k as int)),
        decreases lines.len() - k,
    {
        let l = lines[k].clone();
        assert(l@ == lv[k as int]);
        let a = Action::Send(l);
        proof {
            lemma_actions_view_push(res@, a);
        }
        res.push(a);
        assert(lv.take(k + 1) =~= lv.take(k as int).push(lv[k as int]));
        assert(send_all(lv.take(k + 1)) =~= send_all(lv.take(k as int)).push(a@));
        k += 1;
    }
    assert(lv.take(k as int) =~= lv);
    res
}

fn part_or_empty_exec(parts: &Vec<Vec<char>>, i: usize) -> (res: Vec<char>)
    ensures
        res@ == part_or_empty(seqs_view(parts@), i as int),
{
    if i < parts.len() {
        parts[i].clone()
    } else {
        Vec::new()
    }
}

fn line_of(prefix: &str, middle: &Vec<char>, suffix: &str) -> (res: String)
    ensures
        res@ == prefix@ + middle@ + suffix@,
{
    let mut v: Vec<char> = Vec::new();
    extend_str(&mut v, prefix);
    extend(&mut v, middle);
    extend_str(&mut v, suffix);
    assert(v@ =~= prefix@ + middle@ + suffix@);
    from_chars(&v)
}

fn server_replies_exec(config: &Config, sasl: bool, msg: &Vec<char>) -> (res: Vec<Action>)
    requires
        has_sasl_settings(*config),
    ensures
        actions_view(res@) == server_replies(*config, sasl, msg@),
{
    let parts = split_on(msg, ' ');
    let cmd = part_or_empty_exec(&parts, 1);
    let nick = to_chars(config.nickname.as_str());
    let mut res: Vec<Action> = Vec::new();
    let ghost pv = split_char(msg@, ' ');
    let ghost a1 = if (cmd@ == "CAP"@ || has_prefix(msg@, "AUTHENTICATE +"@) || cmd@ == "903"@)
        && sasl {
        send_all(sasl_reply(msg@, username_of(*config), password_of(*config), nick@))
    } else {
        Seq::<ActionView>::empty()
    };
    if (eq_str(&cmd, "CAP") || starts_with_str(msg, "AUTHENTICATE +") || eq_str(&cmd, "903"))
        && sasl {
        let username: &str = match &config.sasl_username {
            Some(u) => u.as_str(),
            None => "",
        };
        let password: &str = match &config.sasl_password {
            Some(p) => p.as_str(),
            None => "",
        };
        let m = from_chars(msg);
        let lines = handle_sasl_messages(m.as_str(), username, password, config.nickname.as_str());
        res = raw_actions(lines);
    }
    assert(actions_view(res@) == a1);
    if eq_str(&cmd, "001") {
        let a = Action::Send(line_of("MODE ", &nick, " +B\r\n"));
        proof {
            lemma_actions_view_push(res@, a);
        }
        res.push(a);
    }
    let ghost a12 = actions_view(res@);
    if eq_str(&cmd, "376") {
        let mut i: usize = 0;
        let ghost cv = strings_view(config.channels@);
        let ghost f = |c: Seq<char>| ActionView::Send("JOIN "@ + c + "\r\n"@);
        assert(cv.take(0).map_values(f) =~= Seq::<ActionView>::empty());
        while i < config.channels.len()
            invariant
                i <= config.channels@.len(),
                cv == strings_view(config.channels@),
                f == (|c: Seq<char>| ActionView::Send("JOIN "@ + c + "\r\n"@)),
                actions_view(res@) == a12 + cv.take(i as int).map_values(f),
            decreases config.channels.len() - i,
        {
            let c = to_chars(config.channels[i].as_str());
            let a = Action::Send(line_of("JOIN ", &c, "\r\n"));
            proof {
                lemma_actions_view_push(res@, a);
            }
            res.push(a);
            assert(cv.take(i + 1).map_values(f) =~= cv.take(i as int).map_values(f).push(
                f(cv[i as int]),
            ));
            i += 1;
        }
        assert(cv.take(config.channels@.len() as int) =~= cv);
    }
    let ghost a123 = actions_view(res@);
    if eq_str(&cmd, "KICK") {
        let who = part_or_empty_exec(&parts, 3);
        if crate::text::chars_eq(&who, &nick) {
            let chan = part_or_empty_exec(&parts, 2);
            let a = Action::Send(line_of("JOIN ", &chan, "\r\n"));
            proof {
                lemma_actions_view_push(res@, a);
            }
            res.push(a);
        }
    }
    proof {
        reveal_strlit("KICK");
        reveal_strlit("376");
        reveal_strlit("001");
    }
    assert(actions_view(res@) =~= server_replies(*config, sasl, msg@));
    res
}

/// The text of a `PRIVMSG` from its words.
fn privmsg_text_exec(parts: &Vec<Vec<char>>) -> (res: Vec<char>)
    ensures
        res@ == privmsg_text(seqs_view(parts@)),
{
    if parts.len() > 3 {
        let sep = to_chars(" ");
        let rest = join_from(parts, 3, &sep);
        let mut colon: Vec<char> = Vec::new();
        colon.push(':');
        assert(colon@ =~= seq![':']);
        match find(&rest, &colon) {
            Some(p) => {
                assert(crate::text::occurs_at(rest@, colon@, p as int));
                assert(colon@.len() == 1);
                let n = rest.len();
                assert(p + 1 <= n);
                let mut r = slice(&rest, 0, p);
                let tail = slice(&rest, p + 1, n);
                extend(&mut r, &tail);
                assert(r@ =~= rest@.take(p as int) + rest@.skip(p + 1));
                r
            },
            None => rest,
        }
    } else {
        Vec::new()
    }
}

fn is_drug_command_exec(text: &Vec<char>) -> (res: bool)
    ensures
        res == is_drug_command(text@),
{
    starts_with_str(text, "%chug") || starts_with_str(text, "%smoke") || starts_with_str(
        text,
        "%toke",
    ) || starts_with_str(text, "%100") || starts_with_str(text, "%extendo") || starts_with_str(
        text,
        "%fatfuck",
    ) || starts_with_str(text, "%beer")
}

/// A text that begins with a character that is not whitespace has a first
/// word.
pub proof fn lemma_split_ws_has_word(s: Seq<char>, i: int)
    requires
        0 <= i < s.len(),
        !is_ws(s[i]),
    ensures
        split_ws(s).len() >= 1,
    decreases s.len(),
{
    if i < s.len() - 1 {
        lemma_split_ws_has_word(s.drop_last(), i);
        if !is_ws(s.last()) && s.len() >= 2 && !is_ws(s[s.len() - 2]) {
        }
    }
}

proof fn lemma_drug_command_has_word(text: Seq<char>)
    requires
        is_drug_command(text),
    ensures
        split_ws(text).len() >= 1,
{
    reveal_strlit("%chug");
    reveal_strlit("%smoke");
    reveal_strlit("%toke");
    reveal_strlit("%100");
    reveal_strlit("%extendo");
    reveal_strlit("%fatfuck");
    reveal_strlit("%beer");
    assert(text[0] == text.subrange(0, 1)[0]);
    assert(text[0] == '%');
    lemma_split_ws_has_word(text, 0);
}

impl BotState {
    /// The state at the start of a connection.
    pub fn new(sasl_auth: bool, capacity: usize) -> (res: BotState)
        ensures
            res.sasl_auth == sasl_auth,
            res.buffer.messages() == Seq::<Seq<char>>::empty(),
            res.buffer.capacity() == capacity,
            res.buffer.wf(),
            res.drugs == (Drugs {
                fat: false,
                stats: Stats { hits: 25, sips: 8, chugged: 0, smoked: 0, toked: 0, chain: 0 },
            }),
            res.drugs.wf(),
    {
        BotState { sasl_auth, buffer: MessageBuffer::new(capacity), drugs: Drugs::new() }
    }

    fn privmsg_exec(&mut self, config: &Config, parts: &Vec<Vec<char>>, dice: &LineDice) -> (res:
        Vec<Action>)
        requires
            old(self).drugs.wf(),
            counters_below_max(old(self).drugs),
            dice_ok(dice.drugs),
        ensures
            final(self).sasl_auth == old(self).sasl_auth,
            final(self).buffer.capacity() == old(self).buffer.capacity(),
            old(self).buffer.wf() ==> final(self).buffer.wf(),
            final(self).drugs.wf(),
            (final(self).buffer.messages(), final(self).drugs, actions_view(res@)) == privmsg_step(
                old(self).buffer.messages(),
                old(self).buffer.capacity(),
                old(self).drugs,
                *config,
                seqs_view(parts@),
                *dice,
            ),
    {
        let ghost pv = seqs_view(parts@);
        let channel = part_or_empty_exec(parts, 2);
        let text = privmsg_text_exec(parts);
        let text_s = from_chars(&text);
        let channel_s = from_chars(&channel);
        let mut res: Vec<Action> = Vec::new();
        if starts_with_str(&text, "s/") {
            match SedCommand::parse(text_s.as_str()) {
                Some(cmd) => {
                    match self.buffer.apply_sed_command(&cmd) {
                        Some(answer) => {
                            let a = to_chars(answer.as_str());
                            res.push(crate::action::send_privmsg(&channel, &a));
                        },
                        None => {},
                    }
                },
                None => {},
            }
        } else {
            self.buffer.add_message(text_s.clone());
        }
        let ghost b1 = actions_view(res@);
        if starts_with_str(&text, "%ascii") {
            let more = handle_ascii_command(config, text_s.as_str(), channel_s.as_str());
            append_actions(&mut res, more);
        }
        let ghost b12 = actions_view(res@);
        if starts_with_str(&text, "%vomit") {
            let more = vomit_actions_from(&channel, &dice.vomit, config.pump_delay);
            append_actions(&mut res, more);
        }
        let ghost b123 = actions_view(res@);
        if is_drug_command_exec(&text) {
            proof {
                lemma_drug_command_has_word(text@);
            }
            let more = self.drugs.apply_drugs_command(text_s.as_str(), channel_s.as_str(), &dice.drugs);
            append_actions(&mut res, more);
        }
        proof {
            let step = privmsg_step(
                old(self).buffer.messages(),
                old(self).buffer.capacity(),
                old(self).drugs,
                *config,
                pv,
                *dice,
            );
            assert(self.buffer.messages() == step.0);
            assert(self.drugs == step.1);
            assert(actions_view(res@) =~= step.2);
        }
        res
    }

    /// Answers one line from the server with the given draws.
    pub fn apply_line(&mut self, config: &Config, line: &str, dice: &LineDice) -> (res: Vec<Action>)
        requires
            has_sasl_settings(*config),
            old(self).drugs.wf(),
            counters_below_max(old(self).drugs),
            dice_ok(dice.drugs),
        ensures
            final(self).sasl_auth == old(self).sasl_auth,
            final(self).buffer.capacity() == old(self).buffer.capacity(),
            old(self).buffer.wf() ==> final(self).buffer.wf(),
            final(self).drugs.wf(),
            (final(self).buffer.messages(), final(self).drugs, actions_view(res@)) == line_step(
                old(self).sasl_auth,
                old(self).buffer.messages(),
                old(self).buffer.capacity(),
                old(self).drugs,
                *config,
                line@,
                *dice,
            ),
    {
        let raw = to_chars(line);
        let msg = trim_chars(&raw);
        if msg.len() == 0 {
            let res: Vec<Action> = Vec::new();
            assert(actions_view(res@) =~= Seq::<ActionView>::empty());
            return res;
        }
        let parts = split_on(&msg, ' ');
        proof {
            lemma_split_char_nonempty(msg@, ' ');
        }
        if eq_str(&parts[0], "PING") {
            let ping = to_chars("PING");
            let pong = to_chars("PONG");
            proof {
                reveal_strlit("PING");
            }
            let mut reply = replace(&msg, &ping, &pong);
            extend_str(&mut reply, "\r\n");
            let mut res: Vec<Action> = Vec::new();
            res.push(Action::Send(from_chars(&reply)));
            assert(actions_view(res@) =~= seq![
                ActionView::Send(replace_all(msg@, "PING"@, "PONG"@) + "\r\n"@),
            ]);
            return res;
        }
        let mut res = server_replies_exec(config, self.sasl_auth, &msg);
        let cmd = part_or_empty_exec(&parts, 1);
        if eq_str(&cmd, "PRIVMSG") {
            let more = self.privmsg_exec(config, &parts, dice);
            append_actions(&mut res, more);
        }
        res
    }

    /// Answers one line from the server, drawing at random what the
    /// commands in it need.
    pub fn handle_line(&mut self, config: &Config, line: &str) -> (res: Vec<Action>)
        requires
            has_sasl_settings(*config),
            old(self).drugs.wf(),
            counters_below_max(old(self).drugs),
        ensures
            final(self).sasl_auth == old(self).sasl_auth,
            final(self).buffer.capacity() == old(self).buffer.capacity(),
            old(self).buffer.wf() ==> final(self).buffer.wf(),
            final(self).drugs.wf(),
            exists|dice: LineDice|
                line_dice_ok(line@, dice) && (
                    final(self).buffer.messages(),
                    final(self).drugs,
                    actions_view(res@),
                ) == line_step(
                    old(self).sasl_auth,
                    old(self).buffer.messages(),
                    old(self).buffer.capacity(),
                    old(self).drugs,
                    *config,
                    line@,
                    dice,
                ),
    {
        let text = line_text_exec(line);
        let length = if starts_with_str(&text, "%vomit") {
            crate::vomit::vomit_length_of(&text)
        } else {
            0
        };
        let vomit = crate::vomit::roll_vomit(length);
        let drugs = crate::drugs::roll_drug_dice();
        let dice = LineDice { drugs, vomit };
        assert(line_dice_ok(line@, dice));
        self.apply_line(config, line, &dice)
    }
}

fn line_text_exec(line: &str) -> (res: Vec<char>)
    ensures
        res@ == line_text(line@),
{
    let raw = to_chars(line);
    let msg = trim_chars(&raw);
    let parts = split_on(&msg, ' ');
    let cmd = part_or_empty_exec(&parts, 1);
    if eq_str(&cmd, "PRIVMSG") {
        privmsg_text_exec(&parts)
    } else {
        Vec::new()
    }
}

} // verus!
