//! The `%chug`, `%smoke`, `%toke`, `%100`, `%extendo`, `%fatfuck` and
//! `%beer` commands: coloured ASCII drinks and smokes, with a little state.
//!
//! Every random draw a command makes is gathered in a `DrugDice`.
//! `Drugs::apply_drugs_command` does the rest for given dice and is exact;
//! `Drugs::handle_drugs_command` rolls the dice and then calls it.
use crate::action::{actions_view, lemma_actions_view_push, privmsg, Action, ActionView};
use crate::rng::{luck, random_choice, random_range};
use crate::text::{
    eq_str, extend, extend_str, seqs_view, split_whitespace, split_ws, to_chars,
    lemma_seqs_view_push,
};
use vstd::prelude::*;

verus! {

/// How far along the current smoke and drink are, and how many were had.
#[derive(Clone, Copy, PartialEq, Eq, Structural)]
pub struct Stats {
    pub hits: usize,
    pub sips: usize,
    pub chugged: usize,
    pub smoked: usize,
    pub toked: usize,
    pub chain: usize,
}

/// The state the drink and smoke commands keep.
#[derive(Clone, Copy, PartialEq, Eq, Structural)]
pub struct Drugs {
    pub fat: bool,
    pub stats: Stats,
}

/// The random draws of a smoke: two cherry colours (indices into
/// `04`, `08`, `07`) and the puff of smoke.
pub struct SmokeDice {
    pub first: usize,
    pub second: usize,
    pub puff: Vec<char>,
}

/// The random draws of a thrown beer: the brand (bud, modelo, ultra), its
/// temperature (a piss warm, an ice cold, an empty), the colour of a bud
/// label (`02`, `05`) and whether the one-in-a-hundred remark follows.
pub struct BeerDice {
    pub brand: usize,
    pub temperature: usize,
    pub label: usize,
    pub lucky: bool,
}

/// Every random draw one drink or smoke command may make.
pub struct DrugDice {
    /// How many sips or hits are taken (1 or 2).
    pub drop: usize,
    /// Whether the one-in-a-hundred special comes through.
    pub lucky: bool,
    pub smoke: SmokeDice,
    /// The froth of the seven beer rows of a mug, nine characters each.
    pub mug: Vec<Vec<char>>,
    pub beer: BeerDice,
}

// ---------------------------------------------------------------------------
// mIRC colours
// ---------------------------------------------------------------------------

/// `msg` in colour `fg` on `bg`: `\x03fg,bg msg \x0f`, or `\x03fg msg \x0f`
/// with no background.
pub open spec fn color(msg: Seq<char>, fg: Seq<char>, bg: Option<Seq<char>>) -> Seq<char> {
    match bg {
        Some(b) => seq!['\x03'] + fg + seq![','] + b + msg + seq!['\x0f'],
        None => seq!['\x03'] + fg + msg + seq!['\x0f'],
    }
}

/// Appends `msg` in colour `fg` on background `bg` to `out`.
pub fn push_color(out: &mut Vec<char>, msg: &Vec<char>, fg: &str, bg: Option<&str>)
    ensures
        final(out)@ == old(out)@ + color(
            msg@,
            fg@,
            match bg {
                Some(b) => Some(b@),
                None => None,
            },
        ),
{
    let ghost o = out@;
    out.push('\x03');
    extend_str(out, fg);
    match bg {
        Some(b) => {
            out.push(',');
            extend_str(out, b);
        },
        None => {},
    }
    extend(out, msg);
    out.push('\x0f');
    proof {
        match bg {
            Some(b) => {
                assert(out@ =~= o + (seq!['\x03'] + fg@ + seq![','] + b@ + msg@ + seq!['\x0f']));
            },
            None => {
                assert(out@ =~= o + (seq!['\x03'] + fg@ + msg@ + seq!['\x0f']));
            },
        }
    }
}

/// Appends the literal `msg` in colour `fg` on background `bg` to `out`.
pub fn push_color_str(out: &mut Vec<char>, msg: &str, fg: &str, bg: Option<&str>)
    ensures
        final(out)@ == old(out)@ + color(
            msg@,
            fg@,
            match bg {
                Some(b) => Some(b@),
                None => None,
            },
        ),
{
    let m = to_chars(msg);
    push_color(out, &m, fg, bg);
}

/// The side of a glass: a light grey block.
pub open spec fn glass() -> Seq<char> {
    color(" "@, "15"@, Some("15"@))
}

// ---------------------------------------------------------------------------
// Beer
// ---------------------------------------------------------------------------

/// The characters beer froth is drawn from.
pub open spec fn froth_chars() -> Seq<char> {
    "       :."@
}

/// Each froth character in orange on yellow.
pub open spec fn froth(picks: Seq<char>) -> Seq<char>
    decreases picks.len(),
{
    if picks.len() == 0 {
        Seq::empty()
    } else {
        froth(picks.drop_last()) + color(seq![picks.last()], "07"@, Some("08"@))
    }
}

/// One row of beer between two glass sides.
pub open spec fn beer_row(picks: Seq<char>) -> Seq<char> {
    glass() + froth(picks) + glass()
}

/// Nine froth characters.
pub open spec fn froth_ok(picks: Seq<char>) -> bool {
    picks.len() == 9 && forall|i: int| 0 <= i < 9 ==> froth_chars().contains(#[trigger] picks[i])
}

/// One row of beer drawn from the given froth.
pub fn beer_row_from(picks: &Vec<char>) -> (res: Vec<char>)
    ensures
        res@ == beer_row(picks@),
{
    let mut out: Vec<char> = Vec::new();
    push_color_str(&mut out, " ", "15", Some("15"));
    let ghost start = out@;
    let mut i: usize = 0;
    assert(picks@.take(0) =~= Seq::<char>::empty());
    while i < picks.len()
        invariant
            i <= picks.len(),
            out@ == start + froth(picks@.take(i as int)),
        decreases picks.len() - i,
    {
        let mut one: Vec<char> = Vec::new();
        one.push(picks[i]);
        assert(one@ =~= seq![picks@[i as int]]);
        push_color(&mut out, &one, "07", Some("08"));
        assert(picks@.take(i + 1).drop_last() =~= picks@.take(i as int));
        i += 1;
    }
    assert(picks@.take(picks.len() as int) =~= picks@);
    push_color_str(&mut out, " ", "15", Some("15"));
    assert(out@ =~= beer_row(picks@));
    out
}

/// Draws nine froth characters.
pub fn roll_froth() -> (res: Vec<char>)
    ensures
        froth_ok(res@),
{
    let chars = to_chars("       :.");
    proof {
        reveal_strlit("       :.");
    }
    let mut res: Vec<char> = Vec::new();
    let mut i: usize = 0;
    while i < 9
        invariant
            i <= 9,
            res@.len() == i,
            chars@ == froth_chars(),
            chars@.len() == 9,
            forall|j: int| 0 <= j < i ==> froth_chars().contains(#[trigger] res@[j]),
        decreases 9 - i,
    {
        let k = random_choice(chars.len());
        res.push(chars[k]);
        assert(froth_chars()[k as int] == res@[i as int]);
        i += 1;
    }
    res
}

/// A row of beer with random froth.
pub fn beer() -> (res: Vec<char>)
    ensures
        exists|picks: Seq<char>| froth_ok(picks) && res@ == beer_row(picks),
{
    let picks = roll_froth();
    beer_row_from(&picks)
}

// ---------------------------------------------------------------------------
// Mug
// ---------------------------------------------------------------------------

/// An empty row of the mug.
pub open spec fn empty_row() -> Seq<char> {
    glass() + "         "@ + glass()
}

/// The foam on top of a full mug.
pub open spec fn foam_row() -> Seq<char> {
    glass() + color(":::::::::"@, "15"@, Some("00"@)) + glass()
}

/// The handle and the right side of the mug, added to row `i`.
pub open spec fn mug_side(i: int, row: Seq<char>) -> Seq<char> {
    if i == 2 || i == 7 {
        row + glass() + glass()
    } else if 2 < i < 7 {
        row + "  "@ + glass()
    } else {
        row
    }
}

/// A mug holding `size` of its eight rows (foam, then seven of beer), the
/// rest of it empty above, with its handle and its bottom.
pub open spec fn mug_art(size: nat, beers: Seq<Seq<char>>) -> Seq<Seq<char>> {
    let full = seq![foam_row()] + Seq::new(7, |i: int| beer_row(beers[i]));
    let rows = Seq::new((8 - size) as nat, |i: int| empty_row()) + full.take(size as int);
    Seq::new(8, |i: int| mug_side(i, rows[i])).push(color("           "@, "15"@, Some("15"@)))
}

/// Seven rows of froth.
pub open spec fn mug_ok(beers: Seq<Seq<char>>) -> bool {
    beers.len() == 7 && forall|i: int| 0 <= i < 7 ==> froth_ok(#[trigger] beers[i])
}

/// The mug for `size` from the given froth rows.
pub fn mug_from(size: usize, beers: &Vec<Vec<char>>) -> (res: Vec<Vec<char>>)
    requires
        size <= 8,
        beers.len() == 7,
    ensures
        seqs_view(res@) == mug_art(size as nat, seqs_view(beers@)),
{
    let ghost bv = seqs_view(beers@);
    let ghost spec_rows = mug_art(size as nat, bv);
    let mut empty: Vec<char> = Vec::new();
    push_color_str(&mut empty, " ", "15", Some("15"));
    extend_str(&mut empty, "         ");
    push_color_str(&mut empty, " ", "15", Some("15"));
    assert(empty@ =~= empty_row());
    let mut foam: Vec<char> = Vec::new();
    push_color_str(&mut foam, " ", "15", Some("15"));
    push_color_str(&mut foam, ":::::::::", "15", Some("00"));
    push_color_str(&mut foam, " ", "15", Some("15"));
    assert(foam@ =~= foam_row());
    let ghost full = seq![foam_row()] + Seq::new(7, |i: int| beer_row(bv[i]));
    let ghost rows = Seq::new((8 - size) as nat, |i: int| empty_row()) + full.take(size as int);
    let mut res: Vec<Vec<char>> = Vec::new();
    let mut i: usize = 0;
    while i < 8
        invariant
            i <= 8,
            size <= 8,
            beers.len() == 7,
            bv == seqs_view(beers@),
            empty@ == empty_row(),
            foam@ == foam_row(),
            full == seq![foam_row()] + Seq::new(7, |i: int| beer_row(bv[i])),
            rows == Seq::new((8 - size) as nat, |i: int| empty_row()) + full.take(size as int),
            seqs_view(res@) == Seq::new(i as nat, |k: int| mug_side(k, rows[k])),
        decreases 8 - i,
    {
        let mut row: Vec<char> = if i < 8 - size {
            assert(rows[i as int] == empty_row());
            empty.clone()
        } else {
            let k = i - (8 - size);
            assert(rows[i as int] == full[k as int]);
            if k == 0 {
                foam.clone()
            } else {
                assert(full[k as int] == beer_row(bv[k - 1]));
                assert(bv[k - 1] == beers@[k - 1]@);
                beer_row_from(&beers[k - 1])
            }
        };
        assert(row@ == rows[i as int]);
        let ghost r0 = row@;
        if i == 2 || i == 7 {
            push_color_str(&mut row, " ", "15", Some("15"));
            push_color_str(&mut row, " ", "15", Some("15"));
        } else if i > 2 && i < 7 {
            extend_str(&mut row, "  ");
            push_color_str(&mut row, " ", "15", Some("15"));
        }
        assert(row@ =~= mug_side(i as int, r0));
        proof {
            lemma_seqs_view_push(res@, row);
        }
        res.push(row);
        assert(seqs_view(res@) =~= Seq::new((i + 1) as nat, |k: int| mug_side(k, rows[k])));
        i += 1;
    }
    let mut bottom: Vec<char> = Vec::new();
    push_color_str(&mut bottom, "           ", "15", Some("15"));
    proof {
        lemma_seqs_view_push(res@, bottom);
    }
    res.push(bottom);
    assert(seqs_view(res@) =~= spec_rows);
    res
}

/// Draws the froth of the seven beer rows of a mug.
pub fn roll_mug() -> (res: Vec<Vec<char>>)
    ensures
        mug_ok(seqs_view(res@)),
        res@.len() == 7,
{
    let mut res: Vec<Vec<char>> = Vec::new();
    let mut i: usize = 0;
    while i < 7
        invariant
            i <= 7,
            res@.len() == i,
            forall|j: int| 0 <= j < i ==> froth_ok(#[trigger] seqs_view(res@)[j]),
        decreases 7 - i,
    {
        let row = roll_froth();
        proof {
            lemma_seqs_view_push(res@, row);
        }
        res.push(row);
        i += 1;
    }
    res
}

/// A mug for `size` with random froth.
pub fn mug(size: usize) -> (res: Vec<Vec<char>>)
    requires
        size <= 8,
    ensures
        exists|beers: Seq<Seq<char>>|
            mug_ok(beers) && seqs_view(res@) == mug_art(size as nat, beers),
{
    let beers = roll_mug();
    mug_from(size, &beers)
}

// ---------------------------------------------------------------------------
// Smokes
// ---------------------------------------------------------------------------

/// The characters a puff of smoke is drawn from.
pub open spec fn smoke_chars() -> Seq<char> {
    ";:-.,_`~'"@
}

/// The cherry colours.
pub open spec fn cherry_color(i: int) -> Seq<char> {
    if i == 0 {
        "04"@
    } else if i == 1 {
        "08"@
    } else {
        "07"@
    }
}

/// The glowing end: two half blocks, on black and on grey.
pub open spec fn cherry(d: SmokeDice) -> Seq<char> {
    color(seq!['\u{259A}'], cherry_color(d.first as int), Some("01"@)) + color(
        seq!['\u{259A}'],
        cherry_color(d.second as int),
        Some("14"@),
    )
}

/// The trail of smoke, in grey.
pub open spec fn smoke_trail(d: SmokeDice) -> Seq<char> {
    color(seq!['-'] + d.puff@, "14"@, None)
}

/// Valid smoke draws: cherry colours among three, a puff of 5 to 8
/// smoke characters.
pub open spec fn smoke_ok(d: SmokeDice) -> bool {
    &&& d.first < 3
    &&& d.second < 3
    &&& 5 <= d.puff@.len() < 9
    &&& forall|i: int| 0 <= i < d.puff@.len() ==> smoke_chars().contains(#[trigger] d.puff@[i])
}

/// `n` copies of `c`.
pub open spec fn repeat_char(c: char, n: nat) -> Seq<char> {
    Seq::new(n, |i: int| c)
}

/// A cigarette `size` long: filter, paper, cherry, smoke.
pub open spec fn cigarette_art(size: nat, d: SmokeDice) -> Seq<char> {
    color(";.`-,:.`;"@, "08"@, Some("07"@)) + color(" "@, "08"@, Some("08"@)) + color(
        repeat_char('|', size),
        "15"@,
        Some("00"@),
    ) + cherry(d) + smoke_trail(d)
}

/// A joint `size` long: paper, cherry, smoke.
pub open spec fn joint_art(size: nat, d: SmokeDice) -> Seq<char> {
    color(repeat_char('/', size), "15"@, Some("00"@)) + cherry(d) + smoke_trail(d)
}

fn cherry_code(i: usize) -> (res: &'static str)
    ensures
        res@ == cherry_color(i as int),
{
    if i == 0 {
        "04"
    } else if i == 1 {
        "08"
    } else {
        "07"
    }
}

fn repeat_chars(c: char, n: usize) -> (res: Vec<char>)
    ensures
        res@ == repeat_char(c, n as nat),
{
    let mut v: Vec<char> = Vec::new();
    let mut i: usize = 0;
    while i < n
        invariant
            i <= n,
            v@ == repeat_char(c, i as nat),
        decreases n - i,
    {
        v.push(c);
        i += 1;
        assert(v@ =~= repeat_char(c, i as nat));
    }
    v
}

fn push_cherry_and_smoke(out: &mut Vec<char>, d: &SmokeDice)
    ensures
        final(out)@ == old(out)@ + cherry(*d) + smoke_trail(*d),
{
    let ghost o = out@;
    let mut block: Vec<char> = Vec::new();
    block.push('\u{259A}');
    assert(block@ =~= seq!['\u{259A}']);
    push_color(out, &block, cherry_code(d.first), Some("01"));
    push_color(out, &block, cherry_code(d.second), Some("14"));
    let mut trail: Vec<char> = Vec::new();
    trail.push('-');
    extend(&mut trail, &d.puff);
    assert(trail@ =~= seq!['-'] + d.puff@);
    push_color(out, &trail, "14", None);
    assert(out@ =~= o + cherry(*d) + smoke_trail(*d));
}

/// A cigarette for the given draws.
pub fn cigarette_from(size: usize, d: &SmokeDice) -> (res: Vec<char>)
    ensures
        res@ == cigarette_art(size as nat, *d),
{
    let mut out: Vec<char> = Vec::new();
    push_color_str(&mut out, ";.`-,:.`;", "08", Some("07"));
    push_color_str(&mut out, " ", "08", Some("08"));
    let paper = repeat_chars('|', size);
    push_color(&mut out, &paper, "15", Some("00"));
    push_cherry_and_smoke(&mut out, d);
    assert(out@ =~= cigarette_art(size as nat, *d));
    out
}

/// A joint for the given draws.
pub fn joint_from(size: usize, d: &SmokeDice) -> (res: Vec<char>)
    ensures
        res@ == joint_art(size as nat, *d),
{
    let mut out: Vec<char> = Vec::new();
    let paper = repeat_chars('/', size);
    push_color(&mut out, &paper, "15", Some("00"));
    push_cherry_and_smoke(&mut out, d);
    assert(out@ =~= joint_art(size as nat, *d));
    out
}

/// Draws the cherry colours and the puff of a smoke.
pub fn roll_smoke() -> (res: SmokeDice)
    ensures
        smoke_ok(res),
{
    let first = random_choice(3);
    let second = random_choice(3);
    let chars = to_chars(";:-.,_`~'");
    proof {
        reveal_strlit(";:-.,_`~'");
    }
    let n = random_range(5, 9);
    let mut puff: Vec<char> = Vec::new();
    let mut i: usize = 0;
    while i < n
        invariant
            i <= n,
            puff@.len() == i,
            chars@ == smoke_chars(),
            chars@.len() == 9,
            forall|j: int| 0 <= j < i ==> smoke_chars().contains(#[trigger] puff@[j]),
        decreases n - i,
    {
        let k = random_choice(chars.len());
        puff.push(chars[k]);
        assert(smoke_chars()[k as int] == puff@[i as int]);
        i += 1;
    }
    SmokeDice { first, second, puff }
}

/// A cigarette `size` long with a random cherry and puff.
pub fn cigarette(size: usize) -> (res: Vec<char>)
    ensures
        exists|d: SmokeDice| smoke_ok(d) && res@ == cigarette_art(size as nat, d),
{
    let d = roll_smoke();
    cigarette_from(size, &d)
}

/// A joint `size` long with a random cherry and puff.
pub fn joint(size: usize) -> (res: Vec<char>)
    ensures
        exists|d: SmokeDice| smoke_ok(d) && res@ == joint_art(size as nat, d),
{
    let d = roll_smoke();
    joint_from(size, &d)
}

// ---------------------------------------------------------------------------
// Thrown beers
// ---------------------------------------------------------------------------

/// The temperatures.
pub open spec fn temperature_name(i: int) -> Seq<char> {
    if i == 0 {
        "a piss warm"@
    } else if i == 1 {
        "an ice cold"@
    } else {
        "an empty"@
    }
}

/// The can of a brand; a bud's label is blue or red.
pub open spec fn can_art(d: BeerDice) -> Seq<char> {
    if d.brand == 0 {
        color(" "@, "00"@, Some("00"@)) + color(
            " BUD "@,
            "00"@,
            Some(
                if d.label == 0 {
                    "02"@
                } else {
                    "05"@
                },
            ),
        ) + color("c"@, "14"@, Some("00"@))
    } else if d.brand == 1 {
        color(" "@, "07"@, Some("07"@)) + color("Modelo"@, "02"@, Some("08"@)) + color(
            "c"@,
            "14"@,
            Some("07"@),
        )
    } else {
        color(" ULTRA "@, "02"@, Some("00"@)) + color("🬃"@, "04"@, Some("00"@))
    }
}

/// Valid beer draws.
pub open spec fn beer_ok(d: BeerDice) -> bool {
    d.brand < 3 && d.temperature < 3 && d.label < 2
}

/// What throwing a beer at `target` sends to `channel`: the throw, and
/// for a bud, one time in a hundred, a remark two seconds later.
pub open spec fn beer_throw(channel: Seq<char>, target: Seq<char>, d: BeerDice) -> Seq<ActionView> {
    let throw = ActionView::Send(
        privmsg(
            channel,
            seq!['\x01'] + "ACTION throws "@ + color(target, "00"@, None) + " "@ + temperature_name(
                d.temperature as int,
            ) + " "@ + can_art(d) + " =)"@ + seq!['\x01'],
        ),
    );
    if d.brand == 0 && d.lucky {
        seq![
            throw,
            ActionView::SleepSecs(2),
            ActionView::Send(
                privmsg(channel, seq!['\x01'] + "ACTION suddenly feels more gay..."@ + seq!['\x01']),
            ),
        ]
    } else {
        seq![throw]
    }
}

/// The coloured can of the drawn brand.
pub fn format_beer(d: &BeerDice) -> (res: Vec<char>)
    ensures
        res@ == can_art(*d),
{
    let mut out: Vec<char> = Vec::new();
    if d.brand == 0 {
        push_color_str(&mut out, " ", "00", Some("00"));
        let label = if d.label == 0 {
            "02"
        } else {
            "05"
        };
        push_color_str(&mut out, " BUD ", "00", Some(label));
        push_color_str(&mut out, "c", "14", Some("00"));
    } else if d.brand == 1 {
        push_color_str(&mut out, " ", "07", Some("07"));
        push_color_str(&mut out, "Modelo", "02", Some("08"));
        push_color_str(&mut out, "c", "14", Some("07"));
    } else {
        push_color_str(&mut out, " ULTRA ", "02", Some("00"));
        push_color_str(&mut out, "🬃", "04", Some("00"));
    }
    assert(out@ =~= can_art(*d));
    out
}

/// Throws a beer at `target` in `channel` for the given draws.
pub fn beer_throw_from(channel: &Vec<char>, target: &Vec<char>, d: &BeerDice) -> (res: Vec<Action>)
    ensures
        actions_view(res@) == beer_throw(channel@, target@, *d),
{
    let mut text: Vec<char> = Vec::new();
    text.push('\x01');
    extend_str(&mut text, "ACTION throws ");
    push_color(&mut text, target, "00", None);
    extend_str(&mut text, " ");
    let temp = if d.temperature == 0 {
        "a piss warm"
    } else if d.temperature == 1 {
        "an ice cold"
    } else {
        "an empty"
    };
    extend_str(&mut text, temp);
    extend_str(&mut text, " ");
    let can = format_beer(d);
    extend(&mut text, &can);
    extend_str(&mut text, " =)");
    text.push('\x01');
    let mut res: Vec<Action> = Vec::new();
    res.push(crate::action::send_privmsg(channel, &text));
    if d.brand == 0 && d.lucky {
        res.push(Action::SleepSecs(2));
        let mut remark: Vec<char> = Vec::new();
        remark.push('\x01');
        extend_str(&mut remark, "ACTION suddenly feels more gay...");
        remark.push('\x01');
        res.push(crate::action::send_privmsg(channel, &remark));
        assert(remark@ =~= seq!['\x01'] + "ACTION suddenly feels more gay..."@ + seq!['\x01']);
    }
    assert(text@ =~= seq!['\x01'] + "ACTION throws "@ + color(target@, "00"@, None) + " "@
        + temperature_name(d.temperature as int) + " "@ + can_art(*d) + " =)"@ + seq!['\x01']);
    assert(actions_view(res@) =~= beer_throw(channel@, target@, *d));
    res
}

/// Draws the brand, temperature, label and luck of a thrown beer; luck is
/// drawn for a bud only.
pub fn generate_beer() -> (res: BeerDice)
    ensures
        beer_ok(res),
        res.lucky ==> res.brand == 0,
{
    let brand = random_choice(3);
    let temperature = random_choice(3);
    let label = random_choice(2);
    let lucky = if brand == 0 {
        luck(100)
    } else {
        false
    };
    BeerDice { brand, temperature, label, lucky }
}

// ---------------------------------------------------------------------------
// The commands
// ---------------------------------------------------------------------------

/// `s` without its leading `%` characters (`trim_start_matches('%')`).
pub open spec fn strip_percent(s: Seq<char>) -> Seq<char>
    decreases s.len(),
{
    if s.len() > 0 && s[0] == '%' {
        strip_percent(s.drop_first())
    } else {
        s
    }
}

/// The command word: the first word of the message without its `%`s.
pub open spec fn drug_word(command: Seq<char>) -> Seq<char> {
    strip_percent(split_ws(command)[0])
}

/// Valid draws for any command.
pub open spec fn dice_ok(d: DrugDice) -> bool {
    &&& 1 <= d.drop < 3
    &&& smoke_ok(d.smoke)
    &&& mug_ok(seqs_view(d.mug@))
    &&& beer_ok(d.beer)
}

/// Each line sent to `channel`.
pub open spec fn send_lines(channel: Seq<char>, lines: Seq<Seq<char>>) -> Seq<ActionView> {
    lines.map_values(|l: Seq<char>| ActionView::Send(privmsg(channel, l)))
}

/// `a - b`, or 0 when `b` is larger.
pub open spec fn sat_sub(a: usize, b: usize) -> usize {
    if a >= b {
        (a - b) as usize
    } else {
        0
    }
}

/// The banner of a special smoke.
pub open spec fn banner(word: Seq<char>) -> Seq<char> {
    if word == "fatfuck"@ {
        color(" !!! "@, "04"@, Some("03"@)) + color(
            "AWWW SHIT, IT'S TIME FOR THAT MARLBORO FATFUCK"@,
            "01"@,
            Some("03"@),
        ) + color(" !!! "@, "04"@, Some("03"@))
    } else if word == "100"@ {
        color(" !!! "@, "00"@, Some("04"@)) + color(
            "AWWW SHIT, IT'S TIME FOR THAT NEWPORT 100"@,
            "04"@,
            Some("00"@),
        ) + color(" !!! "@, "00"@, Some("04"@))
    } else {
        color(" !!! "@, "04"@, Some("03"@)) + color(
            "OHHH FUCK, IT'S TIME FOR THAT 420 EXTENDO"@,
            "08"@,
            Some("03"@),
        ) + color(" !!! "@, "04"@, Some("03"@))
    }
}

/// What a drink or smoke command does to the state and sends, for the
/// given draws.
pub open spec fn drugs_step(d: Drugs, command: Seq<char>, channel: Seq<char>, dice: DrugDice) -> (
    Drugs,
    Seq<ActionView>,
) {
    let word = drug_word(command);
    let s = d.stats;
    if word == "chug"@ {
        let s1 = if s.sips == 0 {
            Stats { sips: 8, chugged: (s.chugged + 1) as usize, ..s }
        } else {
            s
        };
        (
            Drugs { stats: Stats { sips: sat_sub(s1.sips, dice.drop), ..s1 }, ..d },
            send_lines(channel, mug_art(s1.sips as nat, seqs_view(dice.mug@))),
        )
    } else if word == "smoke"@ || word == "toke"@ {
        if s.hits == 0 {
            let s1 = if word == "smoke"@ {
                Stats { hits: 25, smoked: (s.smoked + 1) as usize, ..s }
            } else {
                Stats { hits: 25, toked: (s.toked + 1) as usize, ..s }
            };
            (Drugs { fat: false, stats: s1 }, Seq::empty())
        } else {
            let object = if word == "smoke"@ {
                cigarette_art(s.hits as nat, dice.smoke)
            } else {
                joint_art(s.hits as nat, dice.smoke)
            };
            let copies: nat = if d.fat {
                3
            } else {
                1
            };
            (
                Drugs { stats: Stats { hits: sat_sub(s.hits, dice.drop), ..s }, ..d },
                send_lines(channel, Seq::new(copies, |i: int| object)),
            )
        }
    } else if word == "100"@ || word == "extendo"@ || word == "fatfuck"@ {
        if !dice.lucky {
            (d, Seq::empty())
        } else if word == "fatfuck"@ {
            (Drugs { fat: true, ..d }, seq![ActionView::Send(privmsg(channel, banner(word)))])
        } else {
            (
                Drugs { stats: Stats { hits: 100, ..s }, ..d },
                seq![ActionView::Send(privmsg(channel, banner(word)))],
            )
        }
    } else if word == "beer"@ {
        let parts = split_ws(command);
        let target = if parts.len() > 1 {
            parts[1]
        } else {
            channel
        };
        (d, beer_throw(channel, target, dice.beer))
    } else {
        (d, Seq::empty())
    }
}

/// The counters can still be incremented.
pub open spec fn counters_below_max(d: Drugs) -> bool {
    d.stats.chugged < usize::MAX && d.stats.smoked < usize::MAX && d.stats.toked < usize::MAX
}

fn strip_percent_chars(s: &Vec<char>) -> (res: Vec<char>)
    ensures
        res@ == strip_percent(s@),
{
    let mut a: usize = 0;
    assert(s@.skip(0) =~= s@);
    while a < s.len() && s[a] == '%'
        invariant
            a <= s.len(),
            strip_percent(s@) == strip_percent(s@.skip(a as int)),
        decreases s.len() - a,
    {
        assert(s@.skip(a as int).drop_first() =~= s@.skip(a + 1));
        a += 1;
    }
    assert(strip_percent(s@.skip(a as int)) == s@.skip(a as int));
    crate::text::slice(s, a, s.len())
}

fn banner_from(word: &Vec<char>) -> (res: Vec<char>)
    ensures
        res@ == banner(word@),
{
    let mut out: Vec<char> = Vec::new();
    if eq_str(word, "fatfuck") {
        push_color_str(&mut out, " !!! ", "04", Some("03"));
        push_color_str(
            &mut out,
            "AWWW SHIT, IT'S TIME FOR THAT MARLBORO FATFUCK",
            "01",
            Some("03"),
        );
        push_color_str(&mut out, " !!! ", "04", Some("03"));
    } else if eq_str(word, "100") {
        push_color_str(&mut out, " !!! ", "00", Some("04"));
        push_color_str(&mut out, "AWWW SHIT, IT'S TIME FOR THAT NEWPORT 100", "04", Some("00"));
        push_color_str(&mut out, " !!! ", "00", Some("04"));
    } else {
        push_color_str(&mut out, " !!! ", "04", Some("03"));
        push_color_str(&mut out, "OHHH FUCK, IT'S TIME FOR THAT 420 EXTENDO", "08", Some("03"));
        push_color_str(&mut out, " !!! ", "04", Some("03"));
    }
    assert(out@ =~= banner(word@));
    out
}

fn send_each(channel: &Vec<char>, lines: &Vec<Vec<char>>) -> (res: Vec<Action>)
    ensures
        actions_view(res@) == send_lines(channel@, seqs_view(lines@)),
{
    let mut res: Vec<Action> = Vec::new();
    let mut i: usize = 0;
    while i < lines.len()
        invariant
            i <= lines.len(),
            actions_view(res@) == send_lines(channel@, seqs_view(lines@).take(i as int)),
        decreases lines.len() - i,
    {
        let a = crate::action::send_privmsg(channel, &lines[i]);
        proof {
            lemma_actions_view_push(res@, a);
        }
        res.push(a);
        assert(send_lines(channel@, seqs_view(lines@).take(i + 1)) =~= send_lines(
            channel@,
            seqs_view(lines@).take(i as int),
        ).push(a@));
        i += 1;
    }
    assert(seqs_view(lines@).take(lines.len() as int) =~= seqs_view(lines@));
    res
}

impl Drugs {
    /// Sips never exceed a full mug, hits never exceed the longest smoke
    /// (100), and the chain counter stays at 0.
    pub open spec fn wf(&self) -> bool {
        &&& self.stats.sips <= 8
        &&& self.stats.hits <= 100
        &&& self.stats.chain == 0
    }

    /// A fresh cigarette (25 hits) and a full mug (8 sips).
    pub fn new() -> (res: Drugs)
        ensures
            res == (Drugs {
                fat: false,
                stats: Stats { hits: 25, sips: 8, chugged: 0, smoked: 0, toked: 0, chain: 0 },
            }),
            res.wf(),
    {
        Drugs {
            fat: false,
            stats: Stats { hits: 25, sips: 8, chugged: 0, smoked: 0, toked: 0, chain: 0 },
        }
    }

    /// Throws a beer at `target` in `channel`, with a random brand,
    /// temperature and label.
    pub fn handle_beer_command(&self, target: &str, channel: &str) -> (res: Vec<Action>)
        ensures
            exists|d: BeerDice| beer_ok(d) && actions_view(res@) == beer_throw(channel@, target@, d),
    {
        let d = generate_beer();
        let t = to_chars(target);
        let c = to_chars(channel);
        beer_throw_from(&c, &t, &d)
    }

    /// Runs a drink or smoke command with the given draws.
    pub fn apply_drugs_command(&mut self, command: &str, channel: &str, dice: &DrugDice) -> (res:
        Vec<Action>)
        requires
            old(self).wf(),
            counters_below_max(*old(self)),
            split_ws(command@).len() >= 1,
            dice_ok(*dice),
        ensures
            final(self).wf(),
            (*final(self), actions_view(res@)) == drugs_step(*old(self), command@, channel@, *dice),
    {
        let cmd = to_chars(command);
        let chan = to_chars(channel);
        let parts = split_whitespace(&cmd);
        let word = strip_percent_chars(&parts[0]);
        assert(word@ == drug_word(command@));
        let ghost d0 = *self;
        let ghost step = drugs_step(d0, command@, channel@, *dice);
        if eq_str(&word, "chug") {
            if self.stats.sips == 0 {
                self.stats.sips = 8;
                self.stats.chugged = self.stats.chugged + 1;
            }
            let lines = mug_from(self.stats.sips, &dice.mug);
            let res = send_each(&chan, &lines);
            self.stats.sips = self.stats.sips.saturating_sub(dice.drop);
            assert(*self == step.0);
            return res;
        } else if eq_str(&word, "smoke") || eq_str(&word, "toke") {
            let is_smoke = eq_str(&word, "smoke");
            if self.stats.hits == 0 {
                self.stats.hits = 25;
                if is_smoke {
                    self.stats.smoked = self.stats.smoked + 1;
                } else {
                    self.stats.toked = self.stats.toked + 1;
                }
                self.fat = false;
                let res: Vec<Action> = Vec::new();
                assert(actions_view(res@) =~= step.1);
                return res;
            } else {
                let object = if is_smoke {
                    cigarette_from(self.stats.hits, &dice.smoke)
                } else {
                    joint_from(self.stats.hits, &dice.smoke)
                };
                let copies: usize = if self.fat {
                    3
                } else {
                    1
                };
                let mut lines: Vec<Vec<char>> = Vec::new();
                let mut i: usize = 0;
                while i < copies
                    invariant
                        i <= copies,
                        seqs_view(lines@) == Seq::new(i as nat, |k: int| object@),
                    decreases copies - i,
                {
                    let c = object.clone();
                    assert(c@ == object@);
                    proof {
                        lemma_seqs_view_push(lines@, c);
                    }
                    lines.push(c);
                    assert(seqs_view(lines@) =~= Seq::new((i + 1) as nat, |k: int| object@));
                    i += 1;
                }
                let res = send_each(&chan, &lines);
                self.stats.hits = self.stats.hits.saturating_sub(dice.drop);
                assert(*self == step.0);
                assert(actions_view(res@) =~= step.1);
                return res;
            }
        } else if eq_str(&word, "100") || eq_str(&word, "extendo") || eq_str(&word, "fatfuck") {
            let mut res: Vec<Action> = Vec::new();
            if dice.lucky {
                let text = banner_from(&word);
                if eq_str(&word, "fatfuck") {
                    self.fat = true;
                } else {
                    self.stats.hits = 100;
                }
                res.push(crate::action::send_privmsg(&chan, &text));
            }
            assert(actions_view(res@) =~= step.1);
            return res;
        } else if eq_str(&word, "beer") {
            let target: &Vec<char> = if parts.len() > 1 {
                &parts[1]
            } else {
                &chan
            };
            assert(target@ == if split_ws(command@).len() > 1 {
                split_ws(command@)[1]
            } else {
                channel@
            });
            return beer_throw_from(&chan, target, &dice.beer);
        } else {
            let res: Vec<Action> = Vec::new();
            assert(actions_view(res@) =~= step.1);
            return res;
        }
    }

    /// Runs a drink or smoke command (`%chug`, `%smoke`, `%toke`, `%100`,
    /// `%extendo`, `%fatfuck`, `%beer [target]`), drawing what it needs at
    /// random.
    pub fn handle_drugs_command(&mut self, command: &str, channel: &str) -> (res: Vec<Action>)
        requires
            old(self).wf(),
            counters_below_max(*old(self)),
            split_ws(command@).len() >= 1,
        ensures
            final(self).wf(),
            exists|dice: DrugDice|
                dice_ok(dice) && (*final(self), actions_view(res@)) == drugs_step(
                    *old(self),
                    command@,
                    channel@,
                    dice,
                ),
    {
        let dice = roll_drug_dice();
        self.apply_drugs_command(command, channel, &dice)
    }
}

/// Draws everything a drink or smoke command may need.
pub fn roll_drug_dice() -> (res: DrugDice)
    ensures
        dice_ok(res),
{
    let drop = random_range(1, 3);
    let lucky = luck(100);
    let smoke = roll_smoke();
    let mug = roll_mug();
    let beer = generate_beer();
    DrugDice { drop, lucky, smoke, mug, beer }
}

} // verus!
