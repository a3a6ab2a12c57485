//! The `%vomit [length]` command: random coloured, formatted characters,
//! sent in chunks of at most 400 bytes.
use crate::action::{actions_view, lemma_actions_view_push, privmsg, Action, ActionView};
use crate::rng::random_inclusive;
use crate::text::{
    decimal, decimal_chars, extend, parse_usize, parse_usize_spec, seqs_view, split_whitespace,
    split_ws, to_chars, lemma_seqs_view_push,
};
use vstd::prelude::*;

verus! {

/// The largest chunk of vomit sent in one message, in bytes.
pub const CHUNK_SIZE: usize = 400;

/// One random character of vomit: its colour (0 to 15), its format
/// (0 bold, 1 italic, 2 underline) and its code point (0 to 0x10FFFF).
#[derive(Clone, Copy)]
pub struct VomitRoll {
    pub color: u8,
    pub format: u8,
    pub codepoint: u32,
}

/// Whether `v` is a Unicode scalar value.
pub open spec fn is_scalar(v: u32) -> bool {
    v <= 0xD7FF || (0xE000 <= v && v <= 0x10FFFF)
}

/// Calls `char::from_u32`; claims what its documentation says: `Some` of
/// the character with that code point exactly when `v` is a scalar value.
#[verifier::external_body]
pub(crate) fn char_from_u32(v: u32) -> (res: Option<char>)
    ensures
        is_scalar(v) <==> res is Some,
        res matches Some(c) ==> c as u32 == v,
{
    std::char::from_u32(v)
}

/// The character a code point stands for, a space for a surrogate.
pub open spec fn vomit_char(v: u32) -> char {
    if is_scalar(v) {
        v as char
    } else {
        ' '
    }
}

/// The format code.
pub open spec fn format_char(f: u8) -> char {
    if f == 0 {
        '\x02'
    } else if f == 1 {
        '\x1D'
    } else {
        '\x1F'
    }
}

/// `n` in at least two decimal digits (`{:02}`).
pub open spec fn two_digits(n: nat) -> Seq<char> {
    if n < 10 {
        seq!['0'] + decimal(n)
    } else {
        decimal(n)
    }
}

/// One character of vomit: colour code, format code, character.
pub open spec fn vomit_piece(r: VomitRoll) -> Seq<char> {
    seq!['\x03'] + two_digits(r.color as nat) + seq![format_char(r.format), vomit_char(r.codepoint)]
}

/// The vomit for the given rolls.
pub open spec fn vomit_text(rolls: Seq<VomitRoll>) -> Seq<char>
    decreases rolls.len(),
{
    if rolls.len() == 0 {
        Seq::empty()
    } else {
        vomit_text(rolls.drop_last()) + vomit_piece(rolls.last())
    }
}

/// Valid rolls.
pub open spec fn rolls_ok(rolls: Seq<VomitRoll>) -> bool {
    forall|i: int|
        0 <= i < rolls.len() ==> {
            &&& (#[trigger] rolls[i]).color <= 15
            &&& rolls[i].format <= 2
            &&& rolls[i].codepoint <= 0x10FFFF
        }
}

/// The vomit for the given rolls.
pub fn vomit_from(rolls: &Vec<VomitRoll>) -> (res: Vec<char>)
    ensures
        res@ == vomit_text(rolls@),
{
    let mut out: Vec<char> = Vec::new();
    let mut i: usize = 0;
    assert(rolls@.take(0) =~= Seq::<VomitRoll>::empty());
    while i < rolls.len()
        invariant
            i <= rolls.len(),
            out@ == vomit_text(rolls@.take(i as int)),
        decreases rolls.len() - i,
    {
        let r = rolls[i];
        let ghost o = out@;
        out.push('\x03');
        if r.color < 10 {
            out.push('0');
        }
        let digits = decimal_chars(r.color as u64);
        extend(&mut out, &digits);
        let f = if r.format == 0 {
            '\x02'
        } else if r.format == 1 {
            '\x1D'
        } else {
            '\x1F'
        };
        out.push(f);
        let c = match char_from_u32(r.codepoint) {
            Some(c) => c,
            None => ' ',
        };
        proof {
            if is_scalar(r.codepoint) {
                vstd::utf8::char_u32_cast(c, r.codepoint);
            }
        }
        assert(c == vomit_char(r.codepoint));
        assert(f == format_char(r.format));
        assert(digits@ == decimal(r.color as nat));
        out.push(c);
        assert(out@ =~= o + vomit_piece(r));
        assert(rolls@.take(i + 1).drop_last() =~= rolls@.take(i as int));
        i += 1;
    }
    assert(rolls@.take(rolls.len() as int) =~= rolls@);
    out
}

/// Draws `length` characters of vomit.
pub fn roll_vomit(length: usize) -> (res: Vec<VomitRoll>)
    ensures
        res@.len() == length,
        rolls_ok(res@),
{
    let mut res: Vec<VomitRoll> = Vec::new();
    let mut i: usize = 0;
    while i < length
        invariant
            i <= length,
            res@.len() == i,
            rolls_ok(res@),
        decreases length - i,
    {
        let codepoint = random_inclusive(0, 0x10FFFF);
        let color = random_inclusive(0, 15) as u8;
        let format = random_inclusive(0, 2) as u8;
        res.push(VomitRoll { color, format, codepoint });
        i += 1;
    }
    res
}

/// `length` characters of random vomit.
pub fn generate_vomit(length: usize) -> (res: Vec<char>)
    ensures
        exists|rolls: Seq<VomitRoll>|
            rolls.len() == length && rolls_ok(rolls) && res@ == vomit_text(rolls),
{
    let rolls = roll_vomit(length);
    vomit_from(&rolls)
}

// ---------------------------------------------------------------------------
// Chunks
// ---------------------------------------------------------------------------

/// The number of bytes of `c` in UTF-8 (`char::len_utf8`).
pub open spec fn utf8_len(c: char) -> nat {
    let u = c as u32;
    if u < 0x80 {
        1
    } else if u < 0x800 {
        2
    } else if u < 0x10000 {
        3
    } else {
        4
    }
}

/// The number of bytes of `s` in UTF-8.
pub open spec fn byte_len(s: Seq<char>) -> nat
    decreases s.len(),
{
    if s.len() == 0 {
        0
    } else {
        byte_len(s.drop_last()) + utf8_len(s.last())
    }
}

/// The number of bytes of `c` in UTF-8.
pub fn char_len_utf8(c: char) -> (res: usize)
    ensures
        res == utf8_len(c),
{
    let u = c as u32;
    if u < 0x80 {
        1
    } else if u < 0x800 {
        2
    } else if u < 0x10000 {
        3
    } else {
        4
    }
}

/// The chunks finished so far and the chunk being filled, after reading
/// `s`: a character that would take the current chunk past `max` bytes
/// starts a new one.
pub open spec fn chunk_state(s: Seq<char>, max: nat) -> (Seq<Seq<char>>, Seq<char>)
    decreases s.len(),
{
    if s.len() == 0 {
        (Seq::empty(), Seq::empty())
    } else {
        let (done, cur) = chunk_state(s.drop_last(), max);
        let c = s.last();
        if byte_len(cur) + utf8_len(c) > max {
            (done.push(cur), seq![c])
        } else {
            (done, cur.push(c))
        }
    }
}

/// The chunks of `s` of at most `max` bytes (`split_into_chunks`).
pub open spec fn chunks(s: Seq<char>, max: nat) -> Seq<Seq<char>> {
    let (done, cur) = chunk_state(s, max);
    if cur.len() > 0 {
        done.push(cur)
    } else {
        done
    }
}

/// One more character adds its UTF-8 length to the byte length.
pub proof fn lemma_byte_len_push(s: Seq<char>, c: char)
    ensures
        byte_len(s.push(c)) == byte_len(s) + utf8_len(c),
{
    assert(s.push(c).drop_last() =~= s);
}

/// Splits `s` into chunks of at most `max` bytes, never inside a character.
pub fn split_into_chunks(s: &Vec<char>, max: usize) -> (res: Vec<Vec<char>>)
    ensures
        seqs_view(res@) == chunks(s@, max as nat),
{
    let mut done: Vec<Vec<char>> = Vec::new();
    let mut cur: Vec<char> = Vec::new();
    let mut cur_bytes: usize = 0;
    let mut i: usize = 0;
    assert(s@.take(0) =~= Seq::<char>::empty());
    while i < s.len()
        invariant
            i <= s.len(),
            (seqs_view(done@), cur@) == chunk_state(s@.take(i as int), max as nat),
            cur_bytes == byte_len(cur@),
            cur_bytes <= max || cur@.len() == 1,
            cur_bytes <= 4 * cur@.len(),
        decreases s.len() - i,
    {
        let c = s[i];
        let n = char_len_utf8(c);
        assert(s@.take(i + 1).drop_last() =~= s@.take(i as int));
        assert(s@.take(i + 1).last() == c);
        let over = if cur_bytes > max {
            true
        } else {
            n > max - cur_bytes
        };
        if over {
            proof {
                lemma_seqs_view_push(done@, cur);
            }
            done.push(cur);
            cur = Vec::new();
            cur.push(c);
            cur_bytes = n;
            proof {
                lemma_byte_len_push(Seq::<char>::empty(), c);
                assert(cur@ =~= seq![c]);
                assert(Seq::<char>::empty().push(c) =~= seq![c]);
            }
        } else {
            proof {
                lemma_byte_len_push(cur@, c);
            }
            cur.push(c);
            cur_bytes = cur_bytes + n;
        }
        i += 1;
    }
    assert(s@.take(s.len() as int) =~= s@);
    if cur.len() > 0 {
        proof {
            lemma_seqs_view_push(done@, cur);
        }
        done.push(cur);
    }
    done
}

// ---------------------------------------------------------------------------
// The command
// ---------------------------------------------------------------------------

/// How much vomit `%vomit [length]` asks for: the length when it parses,
/// else 1000.
pub open spec fn vomit_length(command: Seq<char>) -> nat {
    let parts = split_ws(command);
    if parts.len() > 1 {
        match parse_usize_spec(parts[1]) {
            Some(n) => n,
            None => 1000,
        }
    } else {
        1000
    }
}

/// Each chunk sent to `channel`, with a pause of `delay` seconds after
/// each.
pub open spec fn chunk_actions(channel: Seq<char>, chunks: Seq<Seq<char>>, delay: u64) -> Seq<
    ActionView,
>
    decreases chunks.len(),
{
    if chunks.len() == 0 {
        Seq::empty()
    } else {
        chunk_actions(channel, chunks.drop_last(), delay) + seq![
            ActionView::Send(privmsg(channel, chunks.last())),
            ActionView::SleepSecs(delay),
        ]
    }
}

/// What `%vomit` sends for the given rolls.
pub open spec fn vomit_actions(channel: Seq<char>, rolls: Seq<VomitRoll>, delay: u64) -> Seq<
    ActionView,
> {
    chunk_actions(channel, chunks(vomit_text(rolls), CHUNK_SIZE as nat), delay)
}

/// The length `%vomit [length]` asks for.
pub fn vomit_length_of(command: &Vec<char>) -> (res: usize)
    ensures
        res == vomit_length(command@),
{
    let parts = split_whitespace(command);
    if parts.len() > 1 {
        match parse_usize(&parts[1]) {
            Some(n) => n,
            None => 1000,
        }
    } else {
        1000
    }
}

/// The messages and pauses for the given rolls.
pub fn vomit_actions_from(channel: &Vec<char>, rolls: &Vec<VomitRoll>, delay: u64) -> (res: Vec<
    Action,
>)
    ensures
        actions_view(res@) == vomit_actions(channel@, rolls@, delay),
{
    let text = vomit_from(rolls);
    let pieces = split_into_chunks(&text, CHUNK_SIZE);
    let ghost cv = seqs_view(pieces@);
    let mut res: Vec<Action> = Vec::new();
    let mut i: usize = 0;
    assert(cv.take(0) =~= Seq::<Seq<char>>::empty());
    while i < pieces.len()
        invariant
            i <= pieces.len(),
            cv == seqs_view(pieces@),
            actions_view(res@) == chunk_actions(channel@, cv.take(i as int), delay),
        decreases pieces.len() - i,
    {
        let a = crate::action::send_privmsg(channel, &pieces[i]);
        let ghost r0 = res@;
        proof {
            lemma_actions_view_push(res@, a);
        }
        res.push(a);
        let b = Action::SleepSecs(delay);
        proof {
            lemma_actions_view_push(res@, b);
        }
        res.push(b);
        assert(cv.take(i + 1).drop_last() =~= cv.take(i as int));
        assert(actions_view(res@) =~= chunk_actions(channel@, cv.take(i + 1), delay));
        i += 1;
    }
    assert(cv.take(pieces.len() as int) =~= cv);
    res
}

/// Runs `%vomit [length]` in `channel`, pausing `delay` seconds after each
/// message.
pub fn handle_vomit_command(command: &str, channel: &str, delay: u64) -> (res: Vec<Action>)
    ensures
        exists|rolls: Seq<VomitRoll>|
            rolls.len() == vomit_length(command@) && rolls_ok(rolls) && actions_view(res@)
                == vomit_actions(channel@, rolls, delay),
{
    let cmd = to_chars(command);
    let chan = to_chars(channel);
    let length = vomit_length_of(&cmd);
    let rolls = roll_vomit(length);
    vomit_actions_from(&chan, &rolls, delay)
}

} // verus!
