//! Properties of the bot that span several calls or every input.
use crate::action::{privmsg, ActionView};
use crate::ascii::ascii_request;
use crate::config::Config;
use crate::drugs::{beer_throw, drugs_step, send_lines, DrugDice, Drugs};
use crate::irc::{
    line_parts, line_text, line_step, part_or_empty, privmsg_step, privmsg_text, realname_of, registration, send_all,
    server_replies, LineDice,
};
use crate::sasl::{nick_lines, sasl_reply};
use crate::text::{join, split_char, strings_view, trim, replace_all};
use crate::vomit::{chunk_actions, vomit_actions};
use crate::pattern::regex_matches;
use crate::sed::{parse_sed, after_add, first_matching, lemma_first_matching, sed_on_messages, SedSpec};
use crate::vomit::{byte_len, chunk_state, chunks, utf8_len, lemma_byte_len_push};
use crate::commands::{
    addressed, commander_orders, invader_greeting, invader_reaction, join_order, leave_order, leet,
    pong, scream_args, scream_order, InvaderSession,
};
use crate::text::{first_occurrence, has_substring, is_ws, occurs_at};
use vstd::prelude::*;

verus! {

// ---------------------------------------------------------------------------
// The message history
// ---------------------------------------------------------------------------

/// The messages after `added` arrive one by one.
pub open spec fn add_all(msgs: Seq<Seq<char>>, capacity: nat, added: Seq<Seq<char>>) -> Seq<
    Seq<char>,
>
    decreases added.len(),
{
    if added.len() == 0 {
        msgs
    } else {
        after_add(add_all(msgs, capacity, added.drop_last()), capacity, added.last())
    }
}

/// A history of capacity `capacity` holds exactly the `capacity` most
/// recent messages (all of them while there are fewer), oldest first.
pub proof fn lemma_history_keeps_latest(msgs: Seq<Seq<char>>, capacity: nat, added: Seq<Seq<char>>)
    requires
        capacity > 0,
        msgs.len() <= capacity,
    ensures
        ({
            let all = msgs + added;
            add_all(msgs, capacity, added) == if all.len() <= capacity {
                all
            } else {
                all.skip(all.len() - capacity)
            }
        }),
    decreases added.len(),
{
    let all = msgs + added;
    if added.len() == 0 {
        assert(all =~= msgs);
    } else {
        let prev = added.drop_last();
        lemma_history_keeps_latest(msgs, capacity, prev);
        let pall = msgs + prev;
        let r = add_all(msgs, capacity, prev);
        assert(all =~= pall.push(added.last()));
        if pall.len() < capacity {
            assert(r == pall);
        } else if pall.len() == capacity {
            assert(r == pall);
            assert(r.drop_first().push(added.last()) =~= all.skip(all.len() - capacity));
        } else {
            assert(r == pall.skip(pall.len() - capacity));
            assert(r.len() == capacity);
            assert(r.drop_first().push(added.last()) =~= all.skip(all.len() - capacity));
        }
    }
}

// ---------------------------------------------------------------------------
// What changes the bot's state
// ---------------------------------------------------------------------------

/// Only a `PRIVMSG` changes what the bot remembers and its drinks and
/// smokes: any other line, `PING` and blank lines included, leaves both as
/// they were.
pub proof fn lemma_only_privmsg_changes_state(
    sasl: bool,
    msgs: Seq<Seq<char>>,
    capacity: nat,
    drugs: Drugs,
    config: Config,
    line: Seq<char>,
    dice: LineDice,
)
    requires
        part_or_empty(line_parts(line), 1) != "PRIVMSG"@,
    ensures
        line_step(sasl, msgs, capacity, drugs, config, line, dice).0 == msgs,
        line_step(sasl, msgs, capacity, drugs, config, line, dice).1 == drugs,
{
}

/// The answer to a correction: the corrected message, said in the channel,
/// or nothing.
pub open spec fn correction_answer(msgs: Seq<Seq<char>>, parts: Seq<Seq<char>>) -> Seq<ActionView> {
    match parse_sed(privmsg_text(parts)) {
        Some(c) => match sed_on_messages(msgs, c).1 {
            Some(a) => seq![ActionView::Send(privmsg(part_or_empty(parts, 2), a))],
            None => Seq::empty(),
        },
        None => Seq::empty(),
    }
}

/// What one line does to the remembered messages.  A blank line, a `PING`
/// or a line that is not a `PRIVMSG` leaves them as they were.  A `PRIVMSG`
/// whose text starts with `s/` is a correction: the messages become what
/// the command does to them (unchanged when it does not parse), and the bot
/// sends nothing more than its answers to the server and at most the one
/// corrected line.  Any other `PRIVMSG` text is remembered as the latest
/// message.
pub proof fn lemma_line_history(
    sasl: bool,
    msgs: Seq<Seq<char>>,
    capacity: nat,
    drugs: Drugs,
    config: Config,
    line: Seq<char>,
    dice: LineDice,
)
    ensures
        ({
            let parts = line_parts(line);
            let t = line_text(line);
            let step = line_step(sasl, msgs, capacity, drugs, config, line, dice);
            if trim(line).len() == 0 || parts[0] == "PING"@ || part_or_empty(parts, 1)
                != "PRIVMSG"@ {
                step.0 == msgs
            } else if crate::text::has_prefix(t, "s/"@) {
                &&& step.0 == match parse_sed(t) {
                    Some(c) => sed_on_messages(msgs, c).0,
                    None => msgs,
                }
                &&& step.2 == server_replies(config, sasl, trim(line)) + correction_answer(
                    msgs,
                    parts,
                )
                &&& correction_answer(msgs, parts).len() <= 1
            } else {
                step.0 == after_add(msgs, capacity, t)
            }
        }),
{
    reveal_strlit("PRIVMSG");
    reveal_strlit("s/");
    reveal_strlit("%ascii");
    reveal_strlit("%vomit");
    reveal_strlit("%chug");
    reveal_strlit("%smoke");
    reveal_strlit("%toke");
    reveal_strlit("%100");
    reveal_strlit("%extendo");
    reveal_strlit("%fatfuck");
    reveal_strlit("%beer");
    let msg = trim(line);
    let parts = line_parts(line);
    crate::text::lemma_split_char_nonempty(msg, ' ');
    if msg.len() == 0 {
        assert(split_char(msg, ' ') == seq![Seq::<char>::empty()]);
        assert(part_or_empty(parts, 1) == Seq::<char>::empty());
    }
    let t = line_text(line);
    if crate::text::has_prefix(t, "s/"@) {
        assert(t[0] == t.subrange(0, 2)[0]);
        assert(t[0] == 's');
        assert(!crate::text::has_prefix(t, "%ascii"@)) by {
            if crate::text::has_prefix(t, "%ascii"@) {
                assert(t[0] == t.subrange(0, 6)[0]);
            }
        }
        assert(!crate::text::has_prefix(t, "%vomit"@)) by {
            if crate::text::has_prefix(t, "%vomit"@) {
                assert(t[0] == t.subrange(0, 6)[0]);
            }
        }
        assert(!crate::irc::is_drug_command(t)) by {
            if crate::text::has_prefix(t, "%chug"@) {
                assert(t[0] == t.subrange(0, 5)[0]);
            }
            if crate::text::has_prefix(t, "%smoke"@) {
                assert(t[0] == t.subrange(0, 6)[0]);
            }
            if crate::text::has_prefix(t, "%toke"@) {
                assert(t[0] == t.subrange(0, 5)[0]);
            }
            if crate::text::has_prefix(t, "%100"@) {
                assert(t[0] == t.subrange(0, 4)[0]);
            }
            if crate::text::has_prefix(t, "%extendo"@) {
                assert(t[0] == t.subrange(0, 8)[0]);
            }
            if crate::text::has_prefix(t, "%fatfuck"@) {
                assert(t[0] == t.subrange(0, 8)[0]);
            }
            if crate::text::has_prefix(t, "%beer"@) {
                assert(t[0] == t.subrange(0, 5)[0]);
            }
        }
        if !(parts[0] == "PING"@ || part_or_empty(parts, 1) != "PRIVMSG"@) && msg.len() > 0 {
            let step = line_step(sasl, msgs, capacity, drugs, config, line, dice);
            assert(step.2 =~= server_replies(config, sasl, msg) + correction_answer(msgs, parts));
        }
    }
}

// ---------------------------------------------------------------------------
// Corrections
// ---------------------------------------------------------------------------

/// A correction rewrites at most one message, the oldest one its pattern
/// matches, leaves every other message and the number of messages as they
/// were, and answers with the rewritten message; when nothing matches it
/// changes nothing and answers nothing.
pub proof fn lemma_correction_rewrites_one(msgs: Seq<Seq<char>>, cmd: SedSpec)
    ensures
        ({
            let (after, answer) = sed_on_messages(msgs, cmd);
            &&& after.len() == msgs.len()
            &&& match answer {
                Some(a) => exists|i: int|
                    0 <= i < msgs.len() && regex_matches(cmd.pattern, msgs[i]) && (forall|j: int|
                        0 <= j < i ==> !regex_matches(cmd.pattern, #[trigger] msgs[j])) && after[i]
                        == a && (forall|j: int|
                        0 <= j < msgs.len() && j != i ==> #[trigger] after[j] == msgs[j]),
                None => after == msgs && forall|j: int|
                    0 <= j < msgs.len() ==> !regex_matches(cmd.pattern, #[trigger] msgs[j]),
            }
        }),
{
    lemma_first_matching(msgs, cmd.pattern);
    let (after, answer) = sed_on_messages(msgs, cmd);
    match first_matching(msgs, cmd.pattern) {
        Some(i) => {
            assert(after[i] == answer->0);
        },
        None => {},
    }
}

// ---------------------------------------------------------------------------
// Chunks of vomit
// ---------------------------------------------------------------------------

/// The pieces of `parts` one after another.
pub open spec fn concat_all(parts: Seq<Seq<char>>) -> Seq<char>
    decreases parts.len(),
{
    if parts.len() == 0 {
        Seq::empty()
    } else {
        concat_all(parts.drop_last()) + parts.last()
    }
}

proof fn lemma_chunk_state_concat(s: Seq<char>, max: nat)
    ensures
        ({
            let (done, cur) = chunk_state(s, max);
            &&& concat_all(done) + cur == s
            &&& s.len() > 0 ==> cur.len() > 0
        }),
    decreases s.len(),
{
    if s.len() > 0 {
        let p = s.drop_last();
        lemma_chunk_state_concat(p, max);
        let (done, cur) = chunk_state(p, max);
        let c = s.last();
        assert(s =~= p.push(c));
        if byte_len(cur) + utf8_len(c) > max {
            assert(concat_all(done.push(cur)) == concat_all(done) + cur) by {
                assert(done.push(cur).drop_last() =~= done);
            }
            assert(concat_all(done) + cur + seq![c] =~= (concat_all(done) + cur).push(c));
        } else {
            assert(concat_all(done) + cur.push(c) =~= (concat_all(done) + cur).push(c));
        }
    }
}

proof fn lemma_chunk_state_bounds(s: Seq<char>, max: nat)
    requires
        max >= 4,
    ensures
        ({
            let (done, cur) = chunk_state(s, max);
            &&& byte_len(cur) <= max
            &&& forall|i: int|
                0 <= i < done.len() ==> (#[trigger] done[i]).len() > 0 && byte_len(done[i]) <= max
        }),
    decreases s.len(),
{
    if s.len() > 0 {
        let p = s.drop_last();
        lemma_chunk_state_bounds(p, max);
        lemma_chunk_state_concat(p, max);
        let (done, cur) = chunk_state(p, max);
        let c = s.last();
        assert(utf8_len(c) <= 4);
        if byte_len(cur) + utf8_len(c) > max {
            assert(cur.len() > 0);
            lemma_byte_len_push(Seq::<char>::empty(), c);
            assert(Seq::<char>::empty().push(c) =~= seq![c]);
        } else {
            lemma_byte_len_push(cur, c);
        }
    }
}

/// Vomit is sent whole: for every limit, its chunks put back together give
/// the text; when a chunk may hold at least one character of any size (4
/// bytes), no chunk is empty or longer than the limit.
pub proof fn lemma_chunks_reassemble(s: Seq<char>, max: nat)
    ensures
        concat_all(chunks(s, max)) == s,
        max >= 4 ==> forall|i: int|
            0 <= i < chunks(s, max).len() ==> (#[trigger] chunks(s, max)[i]).len() > 0 && byte_len(
                chunks(s, max)[i],
            ) <= max,
{
    lemma_chunk_state_concat(s, max);
    if max >= 4 {
        lemma_chunk_state_bounds(s, max);
    }
    let (done, cur) = chunk_state(s, max);
    if cur.len() > 0 {
        assert(done.push(cur).drop_last() =~= done);
        if max >= 4 {
            assert forall|i: int|
                0 <= i < done.push(cur).len() implies (#[trigger] done.push(cur)[i]).len() > 0
                && byte_len(done.push(cur)[i]) <= max by {
                if i < done.len() {
                    assert(done.push(cur)[i] == done[i]);
                }
            }
        }
    } else {
        assert(concat_all(done) + cur =~= concat_all(done));
    }
}

// ---------------------------------------------------------------------------
// Drinks and smokes
// ---------------------------------------------------------------------------

/// The drink and smoke state after the commands `steps` (each a command, the
/// channel it came from and its draws), one after another.
pub open spec fn drugs_after(d: Drugs, steps: Seq<(Seq<char>, Seq<char>, DrugDice)>) -> Drugs
    decreases steps.len(),
{
    if steps.len() == 0 {
        d
    } else {
        let (command, channel, dice) = steps.last();
        drugs_step(drugs_after(d, steps.drop_last()), command, channel, dice).0
    }
}

/// Whatever the commands and whatever was drawn, from a valid state (such as
/// `Drugs::new()` gives) the state stays valid after every command: at most
/// 8 sips, at most 100 hits, the chain counter at 0.  So drawing the mug
/// never needs more sips than it holds.
pub proof fn lemma_drugs_stay_valid(d: Drugs, steps: Seq<(Seq<char>, Seq<char>, DrugDice)>)
    requires
        d.wf(),
    ensures
        drugs_after(d, steps).wf(),
    decreases steps.len(),
{
    if steps.len() > 0 {
        lemma_drugs_stay_valid(d, steps.drop_last());
    }
}

// ---------------------------------------------------------------------------
// Registration
// ---------------------------------------------------------------------------

/// SASL is started at most once: on every connection after the one that
/// started it (and on every connection when no password is set) the bot
/// only registers its nickname.
pub proof fn lemma_sasl_starts_once(config: Config, sasl_started: bool)
    ensures
        registration(config, registration(config, sasl_started).0) == (
            registration(config, sasl_started).0,
            nick_lines(config.nickname@, realname_of(config)),
        ),
{
}

// ---------------------------------------------------------------------------
// Every line is terminated
// ---------------------------------------------------------------------------

/// `s` ends with `p`.
pub open spec fn has_suffix(s: Seq<char>, p: Seq<char>) -> bool {
    p.len() <= s.len() && s.subrange(s.len() - p.len(), s.len() as int) == p
}

/// A line to send ends with `\r\n`.
pub open spec fn terminated(line: Seq<char>) -> bool {
    has_suffix(line, "\r\n"@)
}

/// Every line sent by these actions ends with `\r\n`.
pub open spec fn all_terminated(v: Seq<ActionView>) -> bool {
    forall|i: int|
        0 <= i < v.len() ==> match #[trigger] v[i] {
            ActionView::Send(s) => terminated(s),
            _ => true,
        }
}

/// Every line ends with `\r\n`.
pub open spec fn lines_terminated(v: Seq<Seq<char>>) -> bool {
    forall|i: int| 0 <= i < v.len() ==> terminated(#[trigger] v[i])
}

proof fn lemma_suffix(a: Seq<char>, b: Seq<char>)
    ensures
        has_suffix(a + b, b),
{
    assert((a + b).subrange((a + b).len() - b.len(), (a + b).len() as int) =~= b);
}

proof fn lemma_privmsg_terminated(target: Seq<char>, text: Seq<char>)
    ensures
        terminated(privmsg(target, text)),
{
    lemma_suffix("PRIVMSG "@ + target + " :"@ + text, "\r\n"@);
}

proof fn lemma_concat_terminated(a: Seq<ActionView>, b: Seq<ActionView>)
    requires
        all_terminated(a),
        all_terminated(b),
    ensures
        all_terminated(a + b),
{
    assert forall|i: int| 0 <= i < (a + b).len() implies match #[trigger] (a + b)[i] {
        ActionView::Send(s) => terminated(s),
        _ => true,
    } by {
        if i < a.len() {
            assert((a + b)[i] == a[i]);
        } else {
            assert((a + b)[i] == b[i - a.len()]);
        }
    }
}

proof fn lemma_send_lines_terminated(channel: Seq<char>, lines: Seq<Seq<char>>)
    ensures
        all_terminated(send_lines(channel, lines)),
{
    assert forall|i: int| 0 <= i < send_lines(channel, lines).len() implies match #[trigger] send_lines(
        channel,
        lines,
    )[i] {
        ActionView::Send(s) => terminated(s),
        _ => true,
    } by {
        lemma_privmsg_terminated(channel, lines[i]);
    }
}

proof fn lemma_send_all_terminated(lines: Seq<Seq<char>>)
    requires
        lines_terminated(lines),
    ensures
        all_terminated(send_all(lines)),
{
    assert forall|i: int| 0 <= i < send_all(lines).len() implies match #[trigger] send_all(lines)[i] {
        ActionView::Send(s) => terminated(s),
        _ => true,
    } by {
        assert(terminated(lines[i]));
    }
}

proof fn lemma_drugs_terminated(d: Drugs, command: Seq<char>, channel: Seq<char>, dice: DrugDice)
    ensures
        all_terminated(drugs_step(d, command, channel, dice).1),
{
    let out = drugs_step(d, command, channel, dice).1;
    assert forall|i: int| 0 <= i < out.len() implies match #[trigger] out[i] {
        ActionView::Send(s) => terminated(s),
        _ => true,
    } by {
        match out[i] {
            ActionView::Send(s) => {
                let parts = crate::text::split_ws(command);
                let target = if parts.len() > 1 {
                    parts[1]
                } else {
                    channel
                };
                lemma_send_lines_terminated(channel, Seq::new(3, |k: int| Seq::<char>::empty()));
                lemma_privmsg_terminated(channel, crate::drugs::banner(crate::drugs::drug_word(command)));
                lemma_privmsg_terminated(
                    channel,
                    seq!['\x01'] + "ACTION suddenly feels more gay..."@ + seq!['\x01'],
                );
                lemma_beer_terminated(channel, target, dice);
                lemma_drugs_lines(d, command, channel, dice, i);
            },
            _ => {},
        }
    }
}

proof fn lemma_beer_terminated(channel: Seq<char>, target: Seq<char>, dice: DrugDice)
    ensures
        all_terminated(beer_throw(channel, target, dice.beer)),
{
    let out = beer_throw(channel, target, dice.beer);
    assert forall|i: int| 0 <= i < out.len() implies match #[trigger] out[i] {
        ActionView::Send(s) => terminated(s),
        _ => true,
    } by {
        match out[i] {
            ActionView::Send(s) => {
                let b = dice.beer;
                lemma_privmsg_terminated(
                    channel,
                    seq!['\x01'] + "ACTION throws "@ + crate::drugs::color(target, "00"@, None)
                        + " "@ + crate::drugs::temperature_name(b.temperature as int) + " "@
                        + crate::drugs::can_art(b) + " =)"@ + seq!['\x01'],
                );
                lemma_privmsg_terminated(
                    channel,
                    seq!['\x01'] + "ACTION suddenly feels more gay..."@ + seq!['\x01'],
                );
            },
            _ => {},
        }
    }
}

proof fn lemma_drugs_lines(d: Drugs, command: Seq<char>, channel: Seq<char>, dice: DrugDice, i: int)
    requires
        0 <= i < drugs_step(d, command, channel, dice).1.len(),
    ensures
        match drugs_step(d, command, channel, dice).1[i] {
            ActionView::Send(s) => terminated(s),
            _ => true,
        },
{
    let word = crate::drugs::drug_word(command);
    let out = drugs_step(d, command, channel, dice).1;
    if word == "chug"@ {
        let s1 = if d.stats.sips == 0 {
            8usize
        } else {
            d.stats.sips
        };
        lemma_send_lines_terminated(
            channel,
            crate::drugs::mug_art(s1 as nat, crate::text::seqs_view(dice.mug@)),
        );
    } else if word == "smoke"@ || word == "toke"@ {
        if d.stats.hits != 0 {
            let object = if word == "smoke"@ {
                crate::drugs::cigarette_art(d.stats.hits as nat, dice.smoke)
            } else {
                crate::drugs::joint_art(d.stats.hits as nat, dice.smoke)
            };
            let copies: nat = if d.fat {
                3
            } else {
                1
            };
            lemma_send_lines_terminated(channel, Seq::new(copies, |k: int| object));
        }
    } else if word == "100"@ || word == "extendo"@ || word == "fatfuck"@ {
        lemma_privmsg_terminated(channel, crate::drugs::banner(word));
    } else if word == "beer"@ {
        let parts = crate::text::split_ws(command);
        let target = if parts.len() > 1 {
            parts[1]
        } else {
            channel
        };
        lemma_beer_terminated(channel, target, dice);
    }
}

proof fn lemma_chunks_terminated(channel: Seq<char>, pieces: Seq<Seq<char>>, delay: u64)
    ensures
        all_terminated(chunk_actions(channel, pieces, delay)),
    decreases pieces.len(),
{
    if pieces.len() > 0 {
        lemma_chunks_terminated(channel, pieces.drop_last(), delay);
        lemma_privmsg_terminated(channel, pieces.last());
        let tail = seq![
            ActionView::Send(privmsg(channel, pieces.last())),
            ActionView::SleepSecs(delay),
        ];
        assert(all_terminated(tail));
        lemma_concat_terminated(chunk_actions(channel, pieces.drop_last(), delay), tail);
    }
}

proof fn lemma_art_request_terminated(config: Config, command: Seq<char>, channel: Seq<char>)
    ensures
        all_terminated(ascii_request(config, command, channel)),
{
}

proof fn lemma_sasl_reply_terminated(m: Seq<char>, u: Seq<char>, p: Seq<char>, n: Seq<char>)
    ensures
        lines_terminated(sasl_reply(m, u, p, n)),
{
    reveal_strlit("AUTHENTICATE PLAIN\r\n");
    reveal_strlit("CAP END\r\n");
    reveal_strlit("\r\n");
    lemma_suffix(
        "AUTHENTICATE "@ + crate::sasl::base64_standard(
            vstd::utf8::encode_utf8(crate::sasl::plain_credentials(u, p)),
        ),
        "\r\n"@,
    );
    assert(has_suffix("AUTHENTICATE PLAIN\r\n"@, "\r\n"@)) by {
        let l = "AUTHENTICATE PLAIN\r\n"@;
        assert(l.subrange(l.len() - 2, l.len() as int) =~= "\r\n"@);
    }
    assert(has_suffix("CAP END\r\n"@, "\r\n"@)) by {
        let l = "CAP END\r\n"@;
        assert(l.subrange(l.len() - 2, l.len() as int) =~= "\r\n"@);
    }
}

proof fn lemma_server_replies_terminated(config: Config, sasl: bool, msg: Seq<char>)
    ensures
        all_terminated(server_replies(config, sasl, msg)),
{
    let parts = split_char(msg, ' ');
    let nick = config.nickname@;
    lemma_sasl_reply_terminated(
        msg,
        crate::irc::username_of(config),
        crate::irc::password_of(config),
        nick,
    );
    lemma_send_all_terminated(
        sasl_reply(msg, crate::irc::username_of(config), crate::irc::password_of(config), nick),
    );
    lemma_suffix("MODE "@ + nick, " +B\r\n"@);
    reveal_strlit(" +B\r\n");
    reveal_strlit("\r\n");
    let mode = "MODE "@ + nick + " +B\r\n"@;
    assert(mode.subrange(mode.len() - 2, mode.len() as int) =~= "\r\n"@);
    let cs = strings_view(config.channels@);
    let joins = cs.map_values(|c: Seq<char>| ActionView::Send("JOIN "@ + c + "\r\n"@));
    assert forall|i: int| 0 <= i < joins.len() implies match #[trigger] joins[i] {
        ActionView::Send(s) => terminated(s),
        _ => true,
    } by {
        lemma_suffix("JOIN "@ + cs[i], "\r\n"@);
    }
    lemma_suffix("JOIN "@ + part_or_empty(parts, 2), "\r\n"@);
    let a1 = if (part_or_empty(parts, 1) == "CAP"@ || crate::text::has_prefix(
        msg,
        "AUTHENTICATE +"@,
    ) || part_or_empty(parts, 1) == "903"@) && sasl {
        send_all(sasl_reply(msg, crate::irc::username_of(config), crate::irc::password_of(config), nick))
    } else {
        Seq::empty()
    };
    let a2 = if part_or_empty(parts, 1) == "001"@ {
        seq![ActionView::Send(mode)]
    } else {
        Seq::empty()
    };
    let a3 = if part_or_empty(parts, 1) == "376"@ {
        joins
    } else {
        Seq::empty()
    };
    let a4 = if part_or_empty(parts, 1) == "KICK"@ && part_or_empty(parts, 3) == nick {
        seq![ActionView::Send("JOIN "@ + part_or_empty(parts, 2) + "\r\n"@)]
    } else {
        Seq::empty()
    };
    assert(all_terminated(a1));
    assert(all_terminated(a2));
    assert(all_terminated(a3));
    assert(all_terminated(a4));
    lemma_concat_terminated(a1, a2);
    lemma_concat_terminated(a1 + a2, a3);
    lemma_concat_terminated(a1 + a2 + a3, a4);
}

proof fn lemma_privmsg_step_terminated(
    msgs: Seq<Seq<char>>,
    capacity: nat,
    drugs: Drugs,
    config: Config,
    parts: Seq<Seq<char>>,
    dice: LineDice,
)
    ensures
        all_terminated(privmsg_step(msgs, capacity, drugs, config, parts, dice).2),
{
    let channel = part_or_empty(parts, 2);
    let text = privmsg_text(parts);
    let b1 = if crate::text::has_prefix(text, "s/"@) {
        match crate::sed::parse_sed(text) {
            Some(c) => match crate::sed::sed_on_messages(msgs, c).1 {
                Some(a) => seq![ActionView::Send(privmsg(channel, a))],
                None => Seq::empty(),
            },
            None => Seq::empty(),
        }
    } else {
        Seq::<ActionView>::empty()
    };
    match crate::sed::parse_sed(text) {
        Some(c) => match crate::sed::sed_on_messages(msgs, c).1 {
            Some(a) => lemma_privmsg_terminated(channel, a),
            None => {},
        },
        None => {},
    }
    assert(all_terminated(b1));
    let b2 = if crate::text::has_prefix(text, "%ascii"@) {
        ascii_request(config, text, channel)
    } else {
        Seq::empty()
    };
    lemma_art_request_terminated(config, text, channel);
    let b3 = if crate::text::has_prefix(text, "%vomit"@) {
        vomit_actions(channel, dice.vomit@, config.pump_delay)
    } else {
        Seq::empty()
    };
    lemma_chunks_terminated(
        channel,
        chunks(crate::vomit::vomit_text(dice.vomit@), crate::vomit::CHUNK_SIZE as nat),
        config.pump_delay,
    );
    let b4 = if crate::irc::is_drug_command(text) {
        drugs_step(drugs, text, channel, dice.drugs).1
    } else {
        Seq::empty()
    };
    lemma_drugs_terminated(drugs, text, channel, dice.drugs);
    assert(all_terminated(b3));
    assert(all_terminated(b4));
    lemma_concat_terminated(b1, b2);
    lemma_concat_terminated(b1 + b2, b3);
    lemma_concat_terminated(b1 + b2 + b3, b4);
}

/// Every line the bot sends in answer to the server ends with `\r\n`, as
/// IRC requires.
pub proof fn lemma_every_line_terminated(
    sasl: bool,
    msgs: Seq<Seq<char>>,
    capacity: nat,
    drugs: Drugs,
    config: Config,
    line: Seq<char>,
    dice: LineDice,
)
    ensures
        all_terminated(line_step(sasl, msgs, capacity, drugs, config, line, dice).2),
{
    let msg = trim(line);
    let parts = split_char(msg, ' ');
    lemma_suffix(replace_all(msg, "PING"@, "PONG"@), "\r\n"@);
    lemma_server_replies_terminated(config, sasl, msg);
    lemma_privmsg_step_terminated(msgs, capacity, drugs, config, parts, dice);
    lemma_concat_terminated(
        server_replies(config, sasl, msg),
        privmsg_step(msgs, capacity, drugs, config, parts, dice).2,
    );
}

/// Every line sent on connecting ends with `\r\n`.
pub proof fn lemma_registration_terminated(config: Config, sasl_started: bool)
    ensures
        lines_terminated(registration(config, sasl_started).1),
{
    let nick = config.nickname@;
    let rn = realname_of(config);
    lemma_suffix("NICK "@ + nick, "\r\n"@);
    lemma_suffix("USER "@ + nick + " 0 * :"@ + rn, "\r\n"@);
    reveal_strlit("CAP LS 302\r\n");
    reveal_strlit("CAP REQ :sasl\r\n");
    reveal_strlit("\r\n");
    assert(has_suffix("CAP LS 302\r\n"@, "\r\n"@)) by {
        let l = "CAP LS 302\r\n"@;
        assert(l.subrange(l.len() - 2, l.len() as int) =~= "\r\n"@);
    }
    assert(has_suffix("CAP REQ :sasl\r\n"@, "\r\n"@)) by {
        let l = "CAP REQ :sasl\r\n"@;
        assert(l.subrange(l.len() - 2, l.len() as int) =~= "\r\n"@);
    }
    match crate::sasl::opt_strings(config.capabilities) {
        Some(caps) => {
            lemma_suffix("CAP REQ :"@ + join(caps, " "@), "\r\n"@);
        },
        None => {},
    }
    let lines = registration(config, sasl_started).1;
    assert forall|i: int| 0 <= i < lines.len() implies terminated(#[trigger] lines[i]) by {
        if crate::irc::password_of(config).len() > 0 && !sasl_started {
            let caps = crate::sasl::opt_strings(config.capabilities);
            let request = match caps {
                Some(c) => if c.len() > 0 {
                    seq!["CAP REQ :"@ + join(c, " "@) + "\r\n"@]
                } else {
                    Seq::empty()
                },
                None => seq!["CAP REQ :sasl\r\n"@],
            };
            assert(lines == seq!["CAP LS 302\r\n"@] + nick_lines(nick, rn) + request);
            if i == 0 {
            } else if i < 3 {
                assert(lines[i] == nick_lines(nick, rn)[i - 1]);
            } else {
                assert(lines[i] == request[i - 3]);
            }
        }
    }
}

// ---------------------------------------------------------------------------
// The invaders' orders
// ---------------------------------------------------------------------------

/// Orders reach an invader only through `PRIVMSG <commander> :%%...`: any
/// other line gets at most a `PONG` and the answer to a taken nickname.
pub proof fn lemma_orders_only_from_commander(s: InvaderSession, received: Seq<char>)
    requires
        !addressed(s, trim(received)),
    ensures
        invader_reaction(s, received) == (match pong(trim(received)) {
            Some(p) => seq![p],
            None => Seq::<Seq<char>>::empty(),
        }) + (if crate::text::has_prefix(trim(received), ":ircd.chat 433"@) {
            invader_greeting(leet(s.nick@), s)
        } else {
            Seq::empty()
        }),
{
    let m = trim(received);
    assert(commander_orders(s, m) == Seq::<Seq<char>>::empty());
    let r1 = match pong(m) {
        Some(p) => seq![p],
        None => Seq::<Seq<char>>::empty(),
    };
    let r2 = if crate::text::has_prefix(m, ":ircd.chat 433"@) {
        invader_greeting(leet(s.nick@), s)
    } else {
        Seq::empty()
    };
    assert(r1 + r2 + Seq::<Seq<char>>::empty() =~= r1 + r2);
}

/// A word with no whitespace and no `%`, such as a nick or a channel.
pub open spec fn plain_word(w: Seq<char>) -> bool {
    w.len() > 0 && forall|i: int| 0 <= i < w.len() ==> !is_ws(#[trigger] w[i]) && w[i] != '%'
}

/// What precedes the text of a channel message from `who` in channel `c`.
pub open spec fn line_head(who: Seq<char>, c: Seq<char>) -> Seq<char> {
    ":"@ + who + " PRIVMSG "@ + c + " "@
}

/// `:<who> PRIVMSG <c> :<text>`.
pub open spec fn channel_line(who: Seq<char>, c: Seq<char>, text: Seq<char>) -> Seq<char> {
    line_head(who, c) + ":"@ + text
}

proof fn lemma_marked_occurrence(head: Seq<char>, rest: Seq<char>, k: Seq<char>)
    requires
        !head.contains('%'),
        !rest.contains('%'),
    ensures
        first_occurrence(head + ":%%"@ + rest, ":%%"@ + k) == if crate::text::has_prefix(rest, k) {
            Some(head.len() as int)
        } else {
            None
        },
{
    reveal_strlit(":%%");
    let m = head + ":%%"@ + rest;
    let key = ":%%"@ + k;
    let h = head.len() as int;
    assert(key[1] == '%' && key[2] == '%');
    assert forall|j: int| occurs_at(m, key, j) implies j == h by {
        assert(m.subrange(j, j + key.len())[1] == key[1]);
        assert(m.subrange(j, j + key.len())[2] == key[2]);
        assert(m[j + 1] == '%');
        assert(m[j + 2] == '%');
        if j + 1 < h {
            assert(head[j + 1] == m[j + 1]);
        } else if j + 1 == h {
            assert(m[h] == ':');
        } else if j + 1 == h + 2 {
            assert(rest[0] == m[j + 2]);
        } else if j + 1 > h + 2 {
            assert(rest[j + 1 - h - 3] == m[j + 1]);
        }
    }
    if crate::text::has_prefix(rest, k) {
        assert(m.subrange(h, h + key.len()) =~= key);
        assert(occurs_at(m, key, h));
    } else {
        assert(!has_substring(m, key)) by {
            if has_substring(m, key) {
                let j = choose|j: int| occurs_at(m, key, j);
                assert(j == h);
                assert(key.subrange(3, key.len() as int) =~= k);
                assert(rest.subrange(0, k.len() as int) =~= m.subrange(h, h + key.len()).subrange(
                    3,
                    key.len() as int,
                ));
            }
        }
    }
}

proof fn lemma_no_mark(s: Seq<char>, k: Seq<char>)
    requires
        !s.contains('%'),
    ensures
        !has_substring(s, ":%%"@ + k),
{
    reveal_strlit(":%%");
    let key = ":%%"@ + k;
    if has_substring(s, key) {
        let j = choose|j: int| occurs_at(s, key, j);
        assert(s.subrange(j, j + key.len())[1] == key[1]);
        assert(s[j + 1] == '%');
    }
}

/// The facts about a commander's order line that every order law uses.
proof fn lemma_order_line(s: InvaderSession, who: Seq<char>, rest: Seq<char>)
    requires
        plain_word(who),
        plain_word(s.commander@),
        rest.len() > 0,
        !is_ws(rest.last()),
        !rest.contains('%'),
    ensures
        ({
            let m = channel_line(who, s.commander@, "%%"@ + rest);
            &&& m == line_head(who, s.commander@) + ":%%"@ + rest
            &&& !line_head(who, s.commander@).contains('%')
            &&& trim(m) == m
            &&& pong(m) is None
            &&& !crate::text::has_prefix(m, ":ircd.chat 433"@)
            &&& addressed(s, m)
            &&& has_substring(m, "PRIVMSG"@)
        }),
{
    reveal_strlit(":");
    reveal_strlit(" PRIVMSG ");
    reveal_strlit(" ");
    reveal_strlit("%%");
    reveal_strlit(":%%");
    reveal_strlit("PRIVMSG");
    reveal_strlit("PRIVMSG ");
    reveal_strlit(" :%%");
    reveal_strlit("PING");
    reveal_strlit(":ircd.chat 433");
    let c = s.commander@;
    let head = line_head(who, c);
    let m = channel_line(who, c, "%%"@ + rest);
    assert(":%%"@ =~= ":"@ + "%%"@);
    assert(m =~= head + ":%%"@ + rest);
    let n = who.len() as int;
    assert(head.len() == n + 11 + c.len());
    assert forall|i: int| 0 <= i < head.len() implies #[trigger] head[i] != '%' by {
        if 1 <= i < n + 1 {
            assert(head[i] == who[i - 1]);
        } else if n + 10 <= i < n + 10 + c.len() {
            assert(head[i] == c[i - n - 10]);
        }
    }
    assert(m[0] == ':');
    assert(!is_ws(m[0]));
    crate::text::lemma_leading_ws_char(m, 0);
    assert(m.last() == rest.last());
    crate::text::lemma_trailing_ws_char(m, 0);
    assert(trim(m) =~= m);
    assert(!crate::text::has_prefix(m, "PING"@)) by {
        if crate::text::has_prefix(m, "PING"@) {
            assert(m[0] == m.subrange(0, 4)[0]);
        }
    }
    let p = ":ircd.chat 433"@;
    assert(!crate::text::has_prefix(m, p)) by {
        if crate::text::has_prefix(m, p) {
            assert(m[n + 1] == ' ');
            assert(m[n + 2] == 'P');
            if n + 1 < 14 {
                assert(p[n + 1] == m.subrange(0, 14)[n + 1]);
            }
            if n + 2 < 14 {
                assert(p[n + 2] == m.subrange(0, 14)[n + 2]);
            }
            if n > 9 {
                assert(m[10] == who[9]);
                assert(p[10] == m.subrange(0, 14)[10]);
            }
        }
    }
    let w = n + 2;
    assert(m.subrange(w, w + 7) =~= "PRIVMSG"@);
    assert(occurs_at(m, "PRIVMSG"@, w));
    let key = "PRIVMSG "@ + c + " :%%"@;
    assert(m.subrange(w, w + key.len()) =~= key);
    assert(occurs_at(m, key, w));
    let h = head.len() as int;
    assert(m.subrange(h, h + 3) =~= ":%%"@);
    assert(occurs_at(m, ":%%"@, h));
}

/// A commander's `%%join <channel>` makes the invader join that channel,
/// and it does nothing else.
pub proof fn lemma_invader_joins(s: InvaderSession, who: Seq<char>, x: Seq<char>)
    requires
        plain_word(who),
        plain_word(s.commander@),
        plain_word(x),
    ensures
        invader_reaction(s, channel_line(who, s.commander@, "%%join "@ + x)) == seq![
            "JOIN "@ + x + " \r\n"@,
        ],
{
    reveal_strlit("%%join ");
    reveal_strlit("%%");
    reveal_strlit("join ");
    reveal_strlit(":%%join ");
    reveal_strlit(":%%join");
    reveal_strlit(":%%leave");
    reveal_strlit(":%%scream");
    reveal_strlit(":%%");
    reveal_strlit("leave");
    reveal_strlit("scream");
    let rest = "join "@ + x;
    assert(rest.last() == x.last());
    assert(!rest.contains('%')) by {
        if rest.contains('%') {
            let i = choose|i: int| 0 <= i < rest.len() && rest[i] == '%';
            if i >= 5 {
                assert(rest[i] == x[i - 5]);
            }
        }
    }
    assert("%%join "@ + x =~= "%%"@ + rest);
    lemma_order_line(s, who, rest);
    let head = line_head(who, s.commander@);
    let m = channel_line(who, s.commander@, "%%join "@ + x);
    let h = head.len() as int;
    assert(":%%join "@ =~= ":%%"@ + "join "@);
    assert(":%%leave"@ =~= ":%%"@ + "leave"@);
    assert(":%%scream"@ =~= ":%%"@ + "scream"@);
    lemma_marked_occurrence(head, rest, "join "@);
    assert(crate::text::has_prefix(rest, "join "@)) by {
        assert(rest.subrange(0, 5) =~= "join "@);
    }
    lemma_marked_occurrence(head, rest, "leave"@);
    assert(!crate::text::has_prefix(rest, "leave"@)) by {
        if crate::text::has_prefix(rest, "leave"@) {
            assert(rest[0] == rest.subrange(0, 5)[0]);
        }
    }
    lemma_marked_occurrence(head, rest, "scream"@);
    assert(!crate::text::has_prefix(rest, "scream"@)) by {
        if crate::text::has_prefix(rest, "scream"@) {
            assert(rest[0] == rest.subrange(0, 6)[0]);
        }
    }
    assert(m.subrange(h, h + 7) =~= ":%%join"@);
    assert(occurs_at(m, ":%%join"@, h));
    assert(m.skip(h + 8) =~= x);
    lemma_no_mark(x, "join "@);
    reveal(join_order);
    reveal(leave_order);
    reveal(scream_order);
    assert(join_order(m) == seq!["JOIN "@ + x + " \r\n"@]);
    assert(leave_order(m) == Seq::<Seq<char>>::empty());
    assert(scream_order(m) == Seq::<Seq<char>>::empty());
    assert(invader_reaction(s, m) =~= seq!["JOIN "@ + x + " \r\n"@]);
}

/// A commander's `%%leave <channel>` makes the invader leave that channel,
/// and it does nothing else.
pub proof fn lemma_invader_leaves(s: InvaderSession, who: Seq<char>, x: Seq<char>)
    requires
        plain_word(who),
        plain_word(s.commander@),
        plain_word(x),
    ensures
        invader_reaction(s, channel_line(who, s.commander@, "%%leave "@ + x)) == seq![
            "PART "@ + x + " \r\n"@,
        ],
{
    reveal_strlit("%%leave ");
    reveal_strlit("%%");
    reveal_strlit("leave ");
    reveal_strlit(":%%leave ");
    reveal_strlit(":%%join");
    reveal_strlit(":%%leave");
    reveal_strlit(":%%scream");
    reveal_strlit(":%%");
    reveal_strlit("join");
    reveal_strlit("scream");
    let rest = "leave "@ + x;
    assert(rest.last() == x.last());
    assert(!rest.contains('%')) by {
        if rest.contains('%') {
            let i = choose|i: int| 0 <= i < rest.len() && rest[i] == '%';
            if i >= 6 {
                assert(rest[i] == x[i - 6]);
            }
        }
    }
    assert("%%leave "@ + x =~= "%%"@ + rest);
    lemma_order_line(s, who, rest);
    let head = line_head(who, s.commander@);
    let m = channel_line(who, s.commander@, "%%leave "@ + x);
    let h = head.len() as int;
    assert(":%%leave "@ =~= ":%%"@ + "leave "@);
    assert(":%%join"@ =~= ":%%"@ + "join"@);
    assert(":%%scream"@ =~= ":%%"@ + "scream"@);
    lemma_marked_occurrence(head, rest, "leave "@);
    assert(crate::text::has_prefix(rest, "leave "@)) by {
        assert(rest.subrange(0, 6) =~= "leave "@);
    }
    lemma_marked_occurrence(head, rest, "join"@);
    assert(!crate::text::has_prefix(rest, "join"@)) by {
        if crate::text::has_prefix(rest, "join"@) {
            assert(rest[0] == rest.subrange(0, 4)[0]);
        }
    }
    lemma_marked_occurrence(head, rest, "scream"@);
    assert(!crate::text::has_prefix(rest, "scream"@)) by {
        if crate::text::has_prefix(rest, "scream"@) {
            assert(rest[0] == rest.subrange(0, 6)[0]);
        }
    }
    assert(m.subrange(h, h + 8) =~= ":%%leave"@);
    assert(occurs_at(m, ":%%leave"@, h));
    assert(m.skip(h + 9) =~= x);
    lemma_no_mark(x, "leave "@);
    reveal(join_order);
    reveal(leave_order);
    reveal(scream_order);
    assert(join_order(m) == Seq::<Seq<char>>::empty());
    assert(leave_order(m) == seq!["PART "@ + x + " \r\n"@]);
    assert(scream_order(m) == Seq::<Seq<char>>::empty());
    assert(invader_reaction(s, m) =~= seq!["PART "@ + x + " \r\n"@]);
}

proof fn lemma_trim_ws_cons(c: char, t: Seq<char>)
    requires
        is_ws(c),
    ensures
        trim(seq![c] + t) == trim(t),
{
    let s = seq![c] + t;
    assert(s.drop_first() =~= t);
    assert(crate::text::leading_ws(s) == 1 + crate::text::leading_ws(t));
    crate::text::lemma_leading_ws(t);
    assert(crate::text::trim_start(s) =~= crate::text::trim_start(t));
}

proof fn lemma_first_occurrence_at(s: Seq<char>, p: Seq<char>, i: int)
    requires
        occurs_at(s, p, i),
        forall|j: int| 0 <= j < i ==> !occurs_at(s, p, j),
    ensures
        first_occurrence(s, p) == Some(i),
{
    let w = choose|k: int| occurs_at(s, p, k) && forall|j: int| 0 <= j < k ==> !occurs_at(s, p, j);
    assert(occurs_at(s, p, w) && forall|j: int| 0 <= j < w ==> !occurs_at(s, p, j));
    if w < i {
    } else if w > i {
    }
}

/// The reaction to a commander's line `%%scream<body>` is the scream order
/// that `body` gives, and nothing else.
#[verifier::rlimit(80)]
#[verifier::spinoff_prover]
proof fn lemma_scream_line(s: InvaderSession, who: Seq<char>, body: Seq<char>)
    requires
        plain_word(who),
        plain_word(s.commander@),
        body.len() > 0,
        !is_ws(body.last()),
        !body.contains('%'),
        forall|i: int| 0 <= i < body.len() ==> #[trigger] body[i] != '\r' && body[i] != '\n',
    ensures
        invader_reaction(s, channel_line(who, s.commander@, "%%scream"@ + body)) == match scream_args(body) {
            Some(ct) => seq!["PRIVMSG "@ + ct.0 + " :"@ + ct.1 + "\r\n"@],
            None => Seq::<Seq<char>>::empty(),
        },
{
    reveal_strlit("%%scream");
    reveal_strlit("%%");
    reveal_strlit(":%%join");
    reveal_strlit(":%%leave");
    reveal_strlit(":%%scream");
    reveal_strlit(":%%");
    reveal_strlit("join");
    reveal_strlit("leave");
    reveal_strlit("scream");
    let rest = "scream"@ + body;
    assert(rest.last() == body.last());
    assert(!rest.contains('%')) by {
        if rest.contains('%') {
            let i = choose|i: int| 0 <= i < rest.len() && rest[i] == '%';
            if i >= 6 {
                assert(rest[i] == body[i - 6]);
            }
        }
    }
    assert("%%scream"@ + body =~= "%%"@ + rest);
    lemma_order_line(s, who, rest);
    let head = line_head(who, s.commander@);
    let m = channel_line(who, s.commander@, "%%scream"@ + body);
    let h = head.len() as int;
    assert(":%%join"@ =~= ":%%"@ + "join"@);
    assert(":%%leave"@ =~= ":%%"@ + "leave"@);
    assert(":%%scream"@ =~= ":%%"@ + "scream"@);
    lemma_marked_occurrence(head, rest, "join"@);
    assert(!crate::text::has_prefix(rest, "join"@)) by {
        if crate::text::has_prefix(rest, "join"@) {
            assert(rest[0] == rest.subrange(0, 4)[0]);
        }
    }
    lemma_marked_occurrence(head, rest, "leave"@);
    assert(!crate::text::has_prefix(rest, "leave"@)) by {
        if crate::text::has_prefix(rest, "leave"@) {
            assert(rest[0] == rest.subrange(0, 5)[0]);
        }
    }
    lemma_marked_occurrence(head, rest, "scream"@);
    assert(crate::text::has_prefix(rest, "scream"@)) by {
        assert(rest.subrange(0, 6) =~= "scream"@);
    }
    let r = m.skip(h + 9);
    assert(r =~= body);
    crate::commands::lemma_line_len_char(r, r.len());
    assert(r.take(r.len() as int) =~= r);
    assert(crate::commands::scream_tail(m) == Some(body));
    reveal(join_order);
    reveal(leave_order);
    reveal(scream_order);
    assert(join_order(m) == Seq::<Seq<char>>::empty());
    assert(leave_order(m) == Seq::<Seq<char>>::empty());
    let out = match scream_args(body) {
        Some(ct) => seq!["PRIVMSG "@ + ct.0 + " :"@ + ct.1 + "\r\n"@],
        None => Seq::<Seq<char>>::empty(),
    };
    assert(scream_order(m) == out);
    assert(invader_reaction(s, m) =~= out);
}

/// A commander's `%%scream <channel> <text>` (the README's form, without
/// quotes) makes the invader say the text, trimmed, in that channel, and it
/// does nothing else.
#[verifier::rlimit(80)]
#[verifier::spinoff_prover]
pub proof fn lemma_invader_screams(s: InvaderSession, who: Seq<char>, x: Seq<char>, t: Seq<char>)
    requires
        plain_word(who),
        plain_word(s.commander@),
        plain_word(x),
        !x.contains('"'),
        !t.contains('%'),
        !t.contains('"'),
        forall|i: int| 0 <= i < t.len() ==> #[trigger] t[i] != '\r' && t[i] != '\n',
        trim(t).len() > 0,
        !is_ws(t.last()),
    ensures
        invader_reaction(s, channel_line(who, s.commander@, "%%scream "@ + x + " "@ + t)) == seq![
            "PRIVMSG "@ + x + " :"@ + trim(t) + "\r\n"@,
        ],
{
    reveal_strlit("%%scream ");
    reveal_strlit("%%scream");
    reveal_strlit(" ");
    let body = " "@ + x + " "@ + t;
    let n = x.len() as int;
    assert("%%scream "@ + x + " "@ + t =~= "%%scream"@ + body);
    assert(t.len() > 0);
    assert(body.last() == t.last());
    assert(is_ws('\r') && is_ws('\n'));
    assert forall|i: int| 0 <= i < body.len() implies #[trigger] body[i] != '\r' && body[i] != '\n'
        && body[i] != '%' && body[i] != '"' by {
        if 1 <= i < 1 + n {
            assert(body[i] == x[i - 1]);
            assert(!is_ws(x[i - 1]));
        } else if i > 1 + n {
            assert(body[i] == t[i - 2 - n]);
        }
    }
    lemma_scream_line(s, who, body);
    assert(!has_substring(body, seq!['"'])) by {
        if has_substring(body, seq!['"']) {
            let j = choose|j: int| occurs_at(body, seq!['"'], j);
            assert(body.subrange(j, j + 1)[0] == body[j]);
        }
    }
    assert(!is_ws(body[1])) by {
        assert(body[1] == x[0]);
    }
    crate::text::lemma_leading_ws_char(body, 1);
    let a = crate::text::trim_start(body);
    assert(a =~= x + " "@ + t);
    assert forall|i: int| 0 <= i < n implies !is_ws(#[trigger] a[i]) by {
        assert(a[i] == x[i]);
    }
    crate::commands::lemma_word_len_char(a, n as nat);
    assert(a.take(n) =~= x);
    assert(a.skip(n) =~= seq![' '] + t);
    lemma_trim_ws_cons(' ', t);
    assert(scream_args(body) == Some((x, trim(t))));
}

/// A commander's `%%scream <channel> "<text>"` (the quoted form) makes the
/// invader say the text between the quotes in that channel, and it does
/// nothing else; the channel is all that stands before the opening quote.
#[verifier::rlimit(80)]
#[verifier::spinoff_prover]
pub proof fn lemma_invader_screams_quoted(
    s: InvaderSession,
    who: Seq<char>,
    c: Seq<char>,
    t: Seq<char>,
)
    requires
        plain_word(who),
        plain_word(s.commander@),
        c.len() > 0,
        !is_ws(c[0]),
        !is_ws(c.last()),
        forall|i: int|
            0 <= i < c.len() ==> #[trigger] c[i] != '"' && c[i] != '%' && c[i] != '\r' && c[i]
                != '\n',
        forall|i: int|
            0 <= i < t.len() ==> #[trigger] t[i] != '"' && t[i] != '%' && t[i] != '\r' && t[i]
                != '\n',
    ensures
        invader_reaction(
            s,
            channel_line(who, s.commander@, "%%scream "@ + c + " \""@ + t + "\""@),
        ) == seq!["PRIVMSG "@ + c + " :"@ + t + "\r\n"@],
{
    reveal_strlit("%%scream ");
    reveal_strlit("%%scream");
    reveal_strlit(" ");
    reveal_strlit(" \"");
    reveal_strlit("\"");
    let quote = seq!['"'];
    let body = " "@ + c + " "@ + quote + t + quote;
    let n = c.len() as int;
    let q = n + 2;
    assert("%%scream "@ + c + " \""@ + t + "\""@ =~= "%%scream"@ + body);
    assert(body.last() == '"');
    assert(is_ws(' '));
    assert forall|i: int| 0 <= i < body.len() implies #[trigger] body[i] != '\r' && body[i] != '\n'
        && body[i] != '%' by {
        if 1 <= i < 1 + n {
            assert(body[i] == c[i - 1]);
        } else if q < i < q + 1 + t.len() {
            assert(body[i] == t[i - q - 1]);
        }
    }
    lemma_scream_line(s, who, body);
    lemma_quoted_args(c, t);
}

#[verifier::rlimit(80)]
#[verifier::spinoff_prover]
proof fn lemma_quoted_args(c: Seq<char>, t: Seq<char>)
    requires
        c.len() > 0,
        !is_ws(c[0]),
        !is_ws(c.last()),
        forall|i: int|
            0 <= i < c.len() ==> #[trigger] c[i] != '"' && c[i] != '%' && c[i] != '\r' && c[i]
                != '\n',
        forall|i: int|
            0 <= i < t.len() ==> #[trigger] t[i] != '"' && t[i] != '%' && t[i] != '\r' && t[i]
                != '\n',
    ensures
        scream_args(" "@ + c + " "@ + seq!['"'] + t + seq!['"']) == Some((c, t)),
{
    reveal_strlit(" ");
    let quote = seq!['"'];
    let body = " "@ + c + " "@ + quote + t + quote;
    let n = c.len() as int;
    let q = n + 2;
    assert(is_ws(' '));
    // The first quote.
    assert(body.subrange(q, q + 1) =~= quote);
    assert forall|j: int| 0 <= j < q implies !occurs_at(body, quote, j) by {
        assert(body.subrange(j, j + 1)[0] == body[j]);
        if 1 <= j < 1 + n {
            assert(body[j] == c[j - 1]);
        }
    }
    lemma_first_occurrence_at(body, quote, q);
    // The closing quote.
    let after = body.skip(q + 1);
    assert(after =~= t + quote);
    let k = t.len() as int;
    assert(after.subrange(k, k + 1) =~= quote);
    assert forall|j: int| 0 <= j < k implies !occurs_at(after, quote, j) by {
        assert(after.subrange(j, j + 1)[0] == after[j]);
        assert(after[j] == t[j]);
    }
    lemma_first_occurrence_at(after, quote, k);
    assert(after.take(k) =~= t);
    // The channel: what stands between `%%scream` and the opening quote.
    let before = body.take(q);
    assert(before =~= seq![' '] + (c + seq![' ']));
    let cs = c + seq![' '];
    assert(!is_ws(before[1])) by {
        assert(before[1] == c[0]);
    }
    crate::text::lemma_leading_ws_char(before, 1);
    assert(before.last() == ' ');
    assert(crate::text::trailing_ws(before) >= 1);
    lemma_trim_ws_cons(' ', cs);
    assert(!is_ws(cs[0])) by {
        assert(cs[0] == c[0]);
    }
    crate::text::lemma_leading_ws_char(cs, 0);
    assert(cs[cs.len() - 1 - 1] == c.last());
    crate::text::lemma_trailing_ws_char(cs, 1);
    assert(crate::text::trim_start(cs) =~= cs);
    assert(cs.take(cs.len() - 1) =~= c);
    assert(trim(cs) =~= c);
    assert(crate::commands::quoted_scream(before, t) == Some((c, t)));
    assert(scream_args(body) == Some((c, t)));
}

// ---------------------------------------------------------------------------
// What each command does, in terms of its input
// ---------------------------------------------------------------------------

/// `s/pattern/replacement/flags` parses exactly when the text split at `/`
/// has at least four pieces and the second compiles as a regular
/// expression; the pattern is then piece 1, the replacement piece 2 (an
/// empty one deletes what matched), and the command is global exactly when
/// piece 3 contains `g`.
pub proof fn lemma_sed_parse_pieces(command: Seq<char>)
    ensures
        parse_sed(command) is Some <==> (split_char(command, '/').len() >= 4 && crate::pattern::regex_compiles(
            split_char(command, '/')[1],
        )),
        parse_sed(command) is Some ==> ({
            let parts = split_char(command, '/');
            let c = parse_sed(command)->Some_0;
            &&& c.pattern == parts[1]
            &&& c.replacement == parts[2]
            &&& c.global == parts[3].contains('g')
        }),
{
}

/// Every drink and smoke command (a channel text starting with `%chug`,
/// `%smoke`, `%toke`, `%100`, `%extendo`, `%fatfuck` or `%beer`) goes to
/// the drink and smoke handler: the drink state after the line is the
/// handler's, and the line's answer ends with the handler's answer.  Any
/// other text leaves the drink state as it was.
pub proof fn lemma_drug_commands_are_handled(
    sasl: bool,
    msgs: Seq<Seq<char>>,
    capacity: nat,
    drugs: Drugs,
    config: Config,
    line: Seq<char>,
    dice: LineDice,
)
    requires
        trim(line).len() > 0,
        line_parts(line)[0] != "PING"@,
        part_or_empty(line_parts(line), 1) == "PRIVMSG"@,
    ensures
        ({
            let t = line_text(line);
            let step = line_step(sasl, msgs, capacity, drugs, config, line, dice);
            let handled = drugs_step(drugs, t, part_or_empty(line_parts(line), 2), dice.drugs);
            if crate::text::has_prefix(t, "%chug"@) || crate::text::has_prefix(t, "%smoke"@)
                || crate::text::has_prefix(t, "%toke"@) || crate::text::has_prefix(t, "%100"@)
                || crate::text::has_prefix(t, "%extendo"@) || crate::text::has_prefix(
                t,
                "%fatfuck"@,
            ) || crate::text::has_prefix(t, "%beer"@) {
                &&& step.1 == handled.0
                &&& handled.1.len() <= step.2.len()
                &&& step.2.skip(step.2.len() - handled.1.len()) == handled.1
            } else {
                step.1 == drugs
            }
        }),
{
    let t = line_text(line);
    let step = line_step(sasl, msgs, capacity, drugs, config, line, dice);
    let handled = drugs_step(drugs, t, part_or_empty(line_parts(line), 2), dice.drugs);
    let parts = line_parts(line);
    let p = privmsg_step(msgs, capacity, drugs, config, parts, dice);
    if crate::irc::is_drug_command(t) {
        let a = server_replies(config, sasl, trim(line));
        assert(step.2 == a + p.2);
        assert(step.2.skip(step.2.len() - handled.1.len()) =~= handled.1);
    }
}

/// `%vomit <n>`, where the second word reads as a number `n`, asks for
/// exactly `n` characters of vomit; only without such a number is the
/// length the default of 1000.
pub proof fn lemma_vomit_length_is_asked(command: Seq<char>)
    ensures
        ({
            let parts = crate::text::split_ws(command);
            if parts.len() > 1 && crate::text::parse_usize_spec(parts[1]) is Some {
                crate::vomit::vomit_length(command) == crate::text::parse_usize_spec(parts[1])->Some_0
            } else {
                crate::vomit::vomit_length(command) == 1000
            }
        }),
{
}

/// `%invade <n> ...`, where the fifth word reads as a `u32` `n`, plans
/// exactly `n` invaders (and the reply names `n`); only when it does not
/// read as one is the count 1.
pub proof fn lemma_invader_count_is_asked(parts: Seq<Seq<char>>)
    ensures
        match crate::text::parse_u32_spec(parts[4]) {
            Some(n) => crate::commands::invader_count(parts) == n && crate::text::decimal(
                crate::commands::invader_count(parts),
            ) == crate::text::decimal(n),
            None => crate::commands::invader_count(parts) == 1,
        },
{
}

/// The AI's answer: every line gives at least one message, and a line
/// without `*` gives exactly one, `PRIVMSG <channel> :<line>`, the first
/// line addressed to the user (coloured name, then `: `) unless it names
/// them already.
pub proof fn lemma_answer_lines(channel: Seq<char>, username: Seq<char>, lines: Seq<Seq<char>>)
    ensures
        crate::ai::reply_lines(channel, username, lines).len() >= lines.len(),
        (forall|i: int| 0 <= i < lines.len() ==> !(#[trigger] lines[i]).contains('*')) ==> {
            let out = crate::ai::reply_lines(channel, username, lines);
            &&& out.len() == lines.len()
            &&& forall|i: int|
                0 <= i < lines.len() ==> #[trigger] out[i] == privmsg(
                    channel,
                    if i == 0 && !has_substring(lines[0], username) {
                        "\x0313"@ + username + "\x0f: "@ + lines[0]
                    } else {
                        lines[i]
                    },
                )
        },
    decreases lines.len(),
{
    if lines.len() > 0 {
        let init = lines.drop_last();
        lemma_answer_lines(channel, username, init);
        let last = lines.last();
        let r = crate::ai::reply_line(channel, username, last, lines.len() == 1);
        assert(r.len() >= 1) by {
            if last.contains('*') {
                crate::text::lemma_split_char_nonempty(last, '*');
            }
        }
        if forall|i: int| 0 <= i < lines.len() ==> !(#[trigger] lines[i]).contains('*') {
            assert forall|i: int| 0 <= i < init.len() implies !(#[trigger] init[i]).contains('*') by {
                assert(init[i] == lines[i]);
            }
            assert(!lines[lines.len() - 1].contains('*'));
            let out = crate::ai::reply_lines(channel, username, lines);
            let prev = crate::ai::reply_lines(channel, username, init);
            assert(out == prev + r);
            assert forall|i: int| 0 <= i < lines.len() implies #[trigger] out[i] == privmsg(
                channel,
                if i == 0 && !has_substring(lines[0], username) {
                    "\x0313"@ + username + "\x0f: "@ + lines[0]
                } else {
                    lines[i]
                },
            ) by {
                if i < init.len() {
                    assert(out[i] == prev[i]);
                    assert(init[i] == lines[i]);
                    if init.len() > 0 {
                        assert(init[0] == lines[0]);
                    }
                }
            }
        }
    }
}

/// Every nonblank line of the AI's answer gives at least one message.
pub proof fn lemma_every_answer_line_is_sent(filtered: Seq<char>, username: Seq<char>, channel: Seq<char>)
    ensures
        crate::ai::answer_messages(filtered, username, channel).len() >= crate::ai::nonblank(
            split_char(trim(filtered), '\n'),
        ).len(),
{
    lemma_answer_lines(channel, username, crate::ai::nonblank(split_char(trim(filtered), '\n')));
}

} // verus!
