//! The `%ascii` command: ANSI art files sent line by line.
//!
//! Reading directories and files is left to the caller: the command is
//! turned into an `ArtRequest`, and the functions below turn what the
//! file system gave back into messages.
use crate::action::{actions_view, privmsg, Action, ActionView, ArtRequest, ArtRequestView};
use crate::config::{view_or, Config};
use crate::rng::random_choice;
use crate::text::{
    from_utf8_lossy, utf8_lossy,
    eq_str, extend, extend_str, from_chars, join, join_from, replace, replace_all,
    seqs_view, split_whitespace, split_ws, strings_view, to_chars,
};
use vstd::prelude::*;

verus! {

/// The longest piece of a line sent in one message, in bytes.
pub const ART_CHUNK: usize = 4096;

/// The art directory: the configured one, else `ascii_art`.
pub open spec fn art_base(config: Config) -> Seq<char> {
    view_or(config.ascii_art, "ascii_art"@)
}

/// The file `%ascii a b c` names: the words after `%ascii` joined by `/`
/// (`a/b/c`), or the single word.
pub open spec fn art_file_name(parts: Seq<Seq<char>>) -> Seq<char> {
    if parts.len() > 2 {
        replace_all(join(parts.skip(1), " "@), " "@, "/"@)
    } else if parts.len() > 1 {
        parts[1]
    } else {
        Seq::empty()
    }
}

/// What `%ascii ...` asks for: `random` alone picks a file from the art
/// directory (nothing when none is configured), `list [dir]` lists a
/// directory, anything else names a file.
pub open spec fn ascii_request(config: Config, command: Seq<char>, channel: Seq<char>) -> Seq<
    ActionView,
> {
    let parts = split_ws(command);
    let kind = if parts.len() > 1 {
        parts[1]
    } else {
        Seq::empty()
    };
    if kind == "random"@ && parts.len() == 2 {
        match config.ascii_art {
            Some(dir) => seq![
                ActionView::Art { channel, request: ArtRequestView::Random { dir: dir@ } },
            ],
            None => Seq::empty(),
        }
    } else if kind == "list"@ {
        let sub = if parts.len() > 2 {
            parts[2]
        } else {
            Seq::empty()
        };
        seq![
            ActionView::Art {
                channel,
                request: ArtRequestView::List { dir: art_base(config) + "/"@ + sub },
            },
        ]
    } else {
        seq![
            ActionView::Art {
                channel,
                request: ArtRequestView::Show {
                    path: art_base(config) + "/"@ + art_file_name(parts) + ".txt"@,
                },
            },
        ]
    }
}

fn art_base_chars(config: &Config) -> (res: Vec<char>)
    ensures
        res@ == art_base(*config),
{
    match &config.ascii_art {
        Some(d) => to_chars(d.as_str()),
        None => to_chars("ascii_art"),
    }
}

/// Turns `%ascii ...` into the art request it makes.
pub fn handle_ascii_command(config: &Config, command: &str, channel: &str) -> (res: Vec<Action>)
    ensures
        actions_view(res@) == ascii_request(*config, command@, channel@),
{
    let cmd = to_chars(command);
    let parts = split_whitespace(&cmd);
    let mut res: Vec<Action> = Vec::new();
    let is_random = parts.len() > 1 && eq_str(&parts[1], "random");
    let is_list = parts.len() > 1 && eq_str(&parts[1], "list");
    proof {
        reveal_strlit("random");
        reveal_strlit("list");
    }
    let ghost pv = split_ws(command@);
    assert(seqs_view(parts@) == pv);
    if parts.len() > 1 {
        assert(parts@[1]@ == pv[1]);
    } else {
        assert("random"@.len() == 6);
        assert("list"@.len() == 4);
    }
    if is_random && parts.len() == 2 {
        match &config.ascii_art {
            Some(dir) => {
                res.push(
                    Action::Art {
                        channel: String::from_str(channel),
                        request: ArtRequest::Random { dir: dir.clone() },
                    },
                );
            },
            None => {},
        }
    } else if is_list {
        let mut dir = art_base_chars(config);
        extend_str(&mut dir, "/");
        if parts.len() > 2 {
            extend(&mut dir, &parts[2]);
        }
        res.push(
            Action::Art {
                channel: String::from_str(channel),
                request: ArtRequest::List { dir: from_chars(&dir) },
            },
        );
    } else {
        let name: Vec<char> = if parts.len() > 2 {
            let space = to_chars(" ");
            let slash = to_chars("/");
            proof {
                reveal_strlit(" ");
            }
            let joined = join_from(&parts, 1, &space);
            replace(&joined, &space, &slash)
        } else if parts.len() > 1 {
            parts[1].clone()
        } else {
            Vec::new()
        };
        assert(name@ == art_file_name(pv));
        let mut path = art_base_chars(config);
        extend_str(&mut path, "/");
        extend(&mut path, &name);
        extend_str(&mut path, ".txt");
        res.push(
            Action::Art {
                channel: String::from_str(channel),
                request: ArtRequest::Show { path: from_chars(&path) },
            },
        );
    }
    assert(actions_view(res@) =~= ascii_request(*config, command@, channel@));
    res
}

// ---------------------------------------------------------------------------
// Random files
// ---------------------------------------------------------------------------

/// What `%ascii random` does with the files found: sends one of them, or
/// says none was found.
pub enum RandomArt {
    Send { path: String },
    Reply(String),
}

/// Picks one of `files` at random; `None` when there are none.
pub fn select_random_file(files: &Vec<String>) -> (res: Option<String>)
    ensures
        files@.len() == 0 <==> res is None,
        res matches Some(f) ==> exists|i: int| 0 <= i < files@.len() && f@ == files@[i]@,
{
    if files.len() == 0 {
        None
    } else {
        let i = random_choice(files.len());
        let f = files[i].clone();
        Some(f)
    }
}

/// The reply when the art directory holds no file.
pub open spec fn no_files_reply(channel: Seq<char>) -> Seq<char> {
    privmsg(channel, "No files found"@)
}

/// Serves `%ascii random` from the files found in the art directory.
pub fn handle_random(files: &Vec<String>, channel: &str) -> (res: RandomArt)
    ensures
        files@.len() == 0 ==> (res matches RandomArt::Reply(r) && r@ == no_files_reply(channel@)),
        files@.len() > 0 ==> (res matches RandomArt::Send { path } && exists|i: int|
            0 <= i < files@.len() && path@ == files@[i]@),
{
    match select_random_file(files) {
        Some(path) => RandomArt::Send { path },
        None => {
            let chan = to_chars(channel);
            let text = to_chars("No files found");
            RandomArt::Reply(crate::action::privmsg_line(&chan, &text))
        },
    }
}

// ---------------------------------------------------------------------------
// Listing
// ---------------------------------------------------------------------------

/// A directory entry: its file name and whether it is a directory.
pub struct ArtEntry {
    pub name: String,
    pub is_dir: bool,
}

/// How an entry is listed: directories with a trailing `/`, files without
/// a `.txt` extension.
pub open spec fn entry_label(name: Seq<char>, is_dir: bool) -> Seq<char> {
    if is_dir {
        name + "/"@
    } else if name.len() >= 4 && name.subrange(name.len() - 4, name.len() as int) == ".txt"@ {
        name.subrange(0, name.len() - 4)
    } else {
        name
    }
}

/// The labels of the entries.
pub open spec fn entry_labels(entries: Seq<ArtEntry>) -> Seq<Seq<char>> {
    entries.map_values(|e: ArtEntry| entry_label(e.name@, e.is_dir))
}

/// The reply to `%ascii list`: the labels joined by `, `, or a note that
/// nothing was found.
pub open spec fn listing_reply(entries: Seq<ArtEntry>, channel: Seq<char>) -> Seq<char> {
    let joined = join(entry_labels(entries), ", "@);
    if joined.len() == 0 {
        privmsg(channel, "No files or directories found"@)
    } else {
        privmsg(channel, joined)
    }
}

fn entry_label_of(e: &ArtEntry) -> (res: Vec<char>)
    ensures
        res@ == entry_label(e.name@, e.is_dir),
{
    let name = to_chars(e.name.as_str());
    if e.is_dir {
        let mut r = name;
        extend_str(&mut r, "/");
        r
    } else {
        let suffix = to_chars(".txt");
        proof {
            reveal_strlit(".txt");
        }
        if name.len() >= 4 && crate::text::occurs_at_exec(&name, &suffix, name.len() - 4) {
            crate::text::slice(&name, 0, name.len() - 4)
        } else {
            proof {
                if name@.len() >= 4 && name@.subrange(name@.len() - 4, name@.len() as int)
                    == ".txt"@ {
                    assert(crate::text::occurs_at(name@, suffix@, name@.len() - 4));
                }
            }
            name
        }
    }
}

/// The reply to `%ascii list` for the entries found.
pub fn handle_list(entries: &Vec<ArtEntry>, channel: &str) -> (res: String)
    ensures
        res@ == listing_reply(entries@, channel@),
{
    let mut labels: Vec<Vec<char>> = Vec::new();
    let mut i: usize = 0;
    while i < entries.len()
        invariant
            i <= entries.len(),
            seqs_view(labels@) == entry_labels(entries@.take(i as int)),
        decreases entries.len() - i,
    {
        let l = entry_label_of(&entries[i]);
        proof {
            crate::text::lemma_seqs_view_push(labels@, l);
        }
        labels.push(l);
        assert(entry_labels(entries@.take(i + 1)) =~= entry_labels(entries@.take(i as int)).push(
            entry_label(entries@[i as int].name@, entries@[i as int].is_dir),
        ));
        i += 1;
    }
    assert(entries@.take(entries.len() as int) =~= entries@);
    let sep = to_chars(", ");
    let joined = join_from(&labels, 0, &sep);
    assert(seqs_view(labels@).skip(0) =~= seqs_view(labels@));
    let chan = to_chars(channel);
    if joined.len() == 0 {
        let text = to_chars("No files or directories found");
        crate::action::privmsg_line(&chan, &text)
    } else {
        crate::action::privmsg_line(&chan, &joined)
    }
}

// ---------------------------------------------------------------------------
// Sending a file
// ---------------------------------------------------------------------------

/// `bytes` cut into pieces of `n` bytes, the last one shorter
/// (`[u8]::chunks`).
pub open spec fn byte_chunks(bytes: Seq<u8>, n: nat) -> Seq<Seq<u8>>
    decreases bytes.len(),
{
    if bytes.len() == 0 || n == 0 {
        Seq::empty()
    } else if bytes.len() <= n {
        seq![bytes]
    } else {
        seq![bytes.take(n as int)] + byte_chunks(bytes.skip(n as int), n)
    }
}

/// The pause between art lines: at least 100 ms for files of more than
/// 500 lines.
pub open spec fn art_pause(line_count: nat, pump_delay: u64) -> u64 {
    if line_count > 500 && pump_delay < 100 {
        100
    } else {
        pump_delay
    }
}

/// The messages for one line of art: the line itself, or when it is longer
/// than 4096 bytes its 4096-byte pieces read back as text; each followed by
/// the pause.
pub open spec fn art_line_actions(channel: Seq<char>, line: Seq<char>, pause: u64) -> Seq<
    ActionView,
> {
    let bytes = vstd::utf8::encode_utf8(line);
    if bytes.len() > ART_CHUNK {
        lossy_actions(channel, byte_chunks(bytes, ART_CHUNK as nat), pause)
    } else {
        seq![ActionView::Send(privmsg(channel, line)), ActionView::SleepMillis(pause)]
    }
}

/// Each piece read back as text and sent, followed by the pause.
pub open spec fn lossy_actions(channel: Seq<char>, pieces: Seq<Seq<u8>>, pause: u64) -> Seq<
    ActionView,
>
    decreases pieces.len(),
{
    if pieces.len() == 0 {
        Seq::empty()
    } else {
        seq![
            ActionView::Send(privmsg(channel, utf8_lossy(pieces[0]))),
            ActionView::SleepMillis(pause),
        ] + lossy_actions(channel, pieces.drop_first(), pause)
    }
}

/// The messages for all lines of an art file.
pub open spec fn art_actions(channel: Seq<char>, lines: Seq<Seq<char>>, pause: u64) -> Seq<
    ActionView,
>
    decreases lines.len(),
{
    if lines.len() == 0 {
        Seq::empty()
    } else {
        art_actions(channel, lines.drop_last(), pause) + art_line_actions(
            channel,
            lines.last(),
            pause,
        )
    }
}

/// The messages for a long line, from byte `from` on.
fn chunk_actions_from(
    chan: &Vec<char>,
    bytes: &[u8],
    from: usize,
    pause: u64,
    out: &mut Vec<Action>,
)
    requires
        from <= bytes@.len(),
    ensures
        actions_view(final(out)@) == actions_view(old(out)@) + lossy_actions(
            chan@,
            byte_chunks(bytes@.skip(from as int), ART_CHUNK as nat),
            pause,
        ),
    decreases bytes@.len() - from,
{
    let ghost rest = bytes@.skip(from as int);
    if from == bytes.len() {
        assert(byte_chunks(rest, ART_CHUNK as nat) =~= Seq::<Seq<u8>>::empty());
        assert(actions_view(out@) =~= actions_view(old(out)@) + Seq::<ActionView>::empty());
        return ;
    }
    let end = if bytes.len() - from > ART_CHUNK {
        from + ART_CHUNK
    } else {
        bytes.len()
    };
    let piece = vstd::slice::slice_subrange(bytes, from, end);
    let text = from_utf8_lossy(piece);
    let a = Action::Send(crate::action::privmsg_line(chan, &to_chars(text.as_str())));
    let ghost o = actions_view(out@);
    out.push(a);
    out.push(Action::SleepMillis(pause));
    assert(actions_view(out@) =~= o + seq![
        ActionView::Send(privmsg(chan@, utf8_lossy(piece@))),
        ActionView::SleepMillis(pause),
    ]);
    chunk_actions_from(chan, bytes, end, pause, out);
    proof {
        let cs = byte_chunks(rest, ART_CHUNK as nat);
        assert(piece@ =~= rest.take(end - from));
        assert(bytes@.skip(end as int) =~= rest.skip(end - from));
        if rest.len() <= ART_CHUNK {
            assert(cs =~= seq![rest]);
            assert(bytes@.skip(end as int) =~= Seq::<u8>::empty());
            assert(byte_chunks(bytes@.skip(end as int), ART_CHUNK as nat) =~= Seq::<
                Seq<u8>,
            >::empty());
            assert(piece@ =~= rest);
        } else {
            assert(cs =~= seq![rest.take(ART_CHUNK as int)] + byte_chunks(
                rest.skip(ART_CHUNK as int),
                ART_CHUNK as nat,
            ));
        }
        let tail = byte_chunks(bytes@.skip(end as int), ART_CHUNK as nat);
        assert(cs =~= seq![piece@] + tail);
        assert(cs.drop_first() =~= tail);
    }
}

/// The messages and pauses for an art file made of `lines`.
pub fn send_ansi_art(lines: &Vec<String>, pump_delay: u64, channel: &str) -> (res: Vec<Action>)
    ensures
        actions_view(res@) == art_actions(
            channel@,
            strings_view(lines@),
            art_pause(lines@.len() as nat, pump_delay),
        ),
{
    let pause: u64 = if lines.len() > 500 && pump_delay < 100 {
        100
    } else {
        pump_delay
    };
    let chan = to_chars(channel);
    let ghost lv = strings_view(lines@);
    let mut res: Vec<Action> = Vec::new();
    let mut i: usize = 0;
    assert(lv.take(0) =~= Seq::<Seq<char>>::empty());
    while i < lines.len()
        invariant
            i <= lines.len(),
            lv == strings_view(lines@),
            chan@ == channel@,
            actions_view(res@) == art_actions(channel@, lv.take(i as int), pause),
        decreases lines.len() - i,
    {
        let line: &str = lines[i].as_str();
        let bytes = line.as_bytes();
        let ghost before = actions_view(res@);
        if bytes.len() > ART_CHUNK {
            chunk_actions_from(&chan, bytes, 0, pause, &mut res);
            assert(bytes@.skip(0) =~= bytes@);
        } else {
            let l = to_chars(line);
            res.push(Action::Send(crate::action::privmsg_line(&chan, &l)));
            res.push(Action::SleepMillis(pause));
        }
        assert(lv.take(i + 1).drop_last() =~= lv.take(i as int));
        assert(lv.take(i + 1).last() == lines@[i as int]@);
        assert(actions_view(res@) =~= before + art_line_actions(channel@, lines@[i as int]@, pause));
        i += 1;
    }
    assert(lv.take(lines.len() as int) =~= lv);
    res
}

} // verus!
