//! `s/pattern/replacement/flags` corrections over a bounded history of
//! channel messages.
use crate::pattern::{
    regex_compiles, regex_is_match, regex_is_valid, regex_matches, regex_replace,
    regex_replace_all, regex_replace_every, regex_replace_first,
};
use crate::text::{
    from_chars, lemma_split_char_nonempty, lemma_strings_view_push, split_char, split_on,
    strings_view, to_chars,
};
use std::collections::VecDeque;
use vstd::prelude::*;

verus! {

/// A parsed `s/pattern/replacement/flags` command.  The pattern is kept as
/// text and always compiles.
pub struct SedCommand {
    pattern: String,
    replacement: String,
    global: bool,
}

/// The meaning of a sed command.
pub struct SedSpec {
    pub pattern: Seq<char>,
    pub replacement: Seq<char>,
    pub global: bool,
}

/// What `SedCommand::parse` gives for `command`: the pieces between `/`
/// characters are the pattern, the replacement and the flags; `g` among the
/// flags makes it global.  `None` when there are fewer than four pieces or
/// the pattern does not compile.
pub open spec fn parse_sed(command: Seq<char>) -> Option<SedSpec> {
    let parts = split_char(command, '/');
    if parts.len() >= 4 && regex_compiles(parts[1]) {
        Some(SedSpec { pattern: parts[1], replacement: parts[2], global: parts[3].contains('g') })
    } else {
        None
    }
}

/// The text that applying the command to `message` gives.
pub open spec fn apply_sed(cmd: SedSpec, message: Seq<char>) -> Seq<char> {
    if cmd.global {
        regex_replace_every(cmd.pattern, message, cmd.replacement)
    } else {
        regex_replace_first(cmd.pattern, message, cmd.replacement)
    }
}

impl SedCommand {
    /// The pattern, replacement and global flag of the command.
    pub closed spec fn spec(&self) -> SedSpec {
        SedSpec { pattern: self.pattern@, replacement: self.replacement@, global: self.global }
    }

    /// The pattern always compiles.
    #[verifier::type_invariant]
    closed spec fn pattern_compiles(&self) -> bool {
        regex_compiles(self.pattern@)
    }

    /// Parses `s/pattern/replacement/flags`.
    pub fn parse(command: &str) -> (res: Option<SedCommand>)
        ensures
            match parse_sed(command@) {
                Some(c) => res matches Some(r) && r.spec() == c,
                None => res is None,
            },
    {
        let chars = to_chars(command);
        let parts = split_on(&chars, '/');
        proof {
            lemma_split_char_nonempty(command@, '/');
        }
        if parts.len() >= 4 {
            assert(parts@[1]@ == split_char(command@, '/')[1]);
            let pattern = from_chars(&parts[1]);
            if !regex_is_valid(pattern.as_str()) {
                return None;
            }
            let replacement = from_chars(&parts[2]);
            let mut global = false;
            let mut i: usize = 0;
            let flags = &parts[3];
            assert(flags@ == split_char(command@, '/')[3]);
            while i < flags.len()
                invariant
                    i <= flags.len(),
                    global == exists|j: int| 0 <= j < i && flags@[j] == 'g',
                decreases flags.len() - i,
            {
                if flags[i] == 'g' {
                    global = true;
                }
                i += 1;
            }
            assert(global == flags@.contains('g'));
            Some(SedCommand { pattern, replacement, global })
        } else {
            None
        }
    }

    /// The message with the command applied: every match replaced when the
    /// command is global, else the first.
    pub fn apply_to(&self, message: &str) -> (res: String)
        ensures
            res@ == apply_sed(self.spec(), message@),
    {
        proof {
            use_type_invariant(self);
        }
        if self.global {
            regex_replace_all(self.pattern.as_str(), message, self.replacement.as_str())
        } else {
            regex_replace(self.pattern.as_str(), message, self.replacement.as_str())
        }
    }

    /// Whether the command's pattern matches `message`.
    pub fn matches(&self, message: &str) -> (res: bool)
        ensures
            res == regex_matches(self.spec().pattern, message@),
    {
        proof {
            use_type_invariant(self);
        }
        regex_is_match(self.pattern.as_str(), message)
    }
}

/// The most recent channel messages, oldest first, at most `capacity` of
/// them (a capacity of 0 bounds nothing).
pub struct MessageBuffer {
    buffer: VecDeque<String>,
    capacity: usize,
}

/// The messages after one more arrives: when the buffer is full the oldest
/// leaves first.
pub open spec fn after_add(msgs: Seq<Seq<char>>, capacity: nat, m: Seq<char>) -> Seq<Seq<char>> {
    if msgs.len() == capacity && capacity > 0 {
        msgs.drop_first().push(m)
    } else {
        msgs.push(m)
    }
}

/// The index of the oldest message that `pattern` matches.
pub open spec fn first_matching(msgs: Seq<Seq<char>>, pattern: Seq<char>) -> Option<int> {
    if exists|i: int| 0 <= i < msgs.len() && regex_matches(pattern, #[trigger] msgs[i]) {
        Some(
            choose|i: int|
                0 <= i < msgs.len() && regex_matches(pattern, #[trigger] msgs[i]) && forall|j: int|
                    0 <= j < i ==> !regex_matches(pattern, #[trigger] msgs[j]),
        )
    } else {
        None
    }
}

proof fn lemma_least_match(msgs: Seq<Seq<char>>, pattern: Seq<char>, k: int)
    requires
        0 <= k < msgs.len(),
        regex_matches(pattern, msgs[k]),
    ensures
        exists|i: int|
            0 <= i < msgs.len() && regex_matches(pattern, #[trigger] msgs[i]) && forall|j: int|
                0 <= j < i ==> !regex_matches(pattern, #[trigger] msgs[j]),
    decreases k,
{
    if exists|j: int| 0 <= j < k && regex_matches(pattern, #[trigger] msgs[j]) {
        let j = choose|j: int| 0 <= j < k && regex_matches(pattern, #[trigger] msgs[j]);
        lemma_least_match(msgs, pattern, j);
    }
}

/// The index `first_matching` gives is that of the oldest matching
/// message; there is none when no message matches.
pub proof fn lemma_first_matching(msgs: Seq<Seq<char>>, pattern: Seq<char>)
    ensures
        match first_matching(msgs, pattern) {
            Some(i) => 0 <= i < msgs.len() && regex_matches(pattern, msgs[i]) && forall|j: int|
                0 <= j < i ==> !regex_matches(pattern, #[trigger] msgs[j]),
            None => forall|j: int| 0 <= j < msgs.len() ==> !regex_matches(pattern, #[trigger] msgs[j]),
        },
{
    if exists|i: int| 0 <= i < msgs.len() && regex_matches(pattern, #[trigger] msgs[i]) {
        let k = choose|i: int| 0 <= i < msgs.len() && regex_matches(pattern, #[trigger] msgs[i]);
        lemma_least_match(msgs, pattern, k);
    }
}

/// What applying a sed command does to the messages, and what it answers:
/// the oldest matching message is rewritten in place and handed back.
pub open spec fn sed_on_messages(msgs: Seq<Seq<char>>, cmd: SedSpec) -> (Seq<Seq<char>>, Option<
    Seq<char>,
>) {
    match first_matching(msgs, cmd.pattern) {
        Some(i) => {
            let new = apply_sed(cmd, msgs[i]);
            (msgs.update(i, new), Some(new))
        },
        None => (msgs, None),
    }
}

impl MessageBuffer {
    /// The stored messages, oldest first.
    pub closed spec fn messages(&self) -> Seq<Seq<char>> {
        strings_view(self.buffer@)
    }

    /// The capacity the buffer was made with.
    pub closed spec fn capacity(&self) -> nat {
        self.capacity as nat
    }

    /// Never more than `capacity` messages, unless the capacity is 0.
    pub open spec fn wf(&self) -> bool {
        self.capacity() == 0 || self.messages().len() <= self.capacity()
    }

    /// An empty buffer holding at most `capacity` messages.
    pub fn new(capacity: usize) -> (res: MessageBuffer)
        ensures
            res.messages() == Seq::<Seq<char>>::empty(),
            res.capacity() == capacity,
            res.wf(),
    {
        let res = MessageBuffer { buffer: VecDeque::with_capacity(capacity), capacity };
        assert(res.messages() =~= Seq::<Seq<char>>::empty());
        res
    }

    /// Records a message; when the buffer is full the oldest one leaves.
    pub fn add_message(&mut self, message: String)
        ensures
            final(self).messages() == after_add(old(self).messages(), old(self).capacity(), message@),
            final(self).capacity() == old(self).capacity(),
            old(self).wf() ==> final(self).wf(),
    {
        let ghost old_msgs = self.messages();
        let ghost m = message@;
        if self.buffer.len() == self.capacity {
            let _ = self.buffer.pop_front();
            proof {
                if old_msgs.len() > 0 {
                    assert(strings_view(self.buffer@) =~= old_msgs.drop_first());
                }
            }
        }
        self.buffer.push_back(message);
        proof {
            lemma_strings_view_push(old(self).buffer@, message);
            if old_msgs.len() == self.capacity && self.capacity > 0 {
                let b = self.buffer@;
                assert(strings_view(b) =~= old_msgs.drop_first().push(m));
            } else {
                assert(strings_view(self.buffer@) =~= old_msgs.push(m));
            }
        }
    }

    /// Applies the command to the oldest message it matches, stores the
    /// result in that message's place and returns it.
    pub fn apply_sed_command(&mut self, command: &SedCommand) -> (res: Option<String>)
        ensures
            ({
                let (msgs, answer) = sed_on_messages(old(self).messages(), command.spec());
                &&& final(self).messages() == msgs
                &&& match answer {
                    Some(a) => res matches Some(r) && r@ == a,
                    None => res is None,
                }
            }),
            final(self).capacity() == old(self).capacity(),
            final(self).messages().len() == old(self).messages().len(),
            old(self).wf() ==> final(self).wf(),
    {
        let ghost msgs = self.messages();
        let ghost pat = command.spec().pattern;
        let mut i: usize = 0;
        while i < self.buffer.len()
            invariant
                i <= self.buffer@.len(),
                msgs == strings_view(self.buffer@),
                msgs == old(self).messages(),
                self.capacity == old(self).capacity,
                pat == command.spec().pattern,
                forall|j: int| 0 <= j < i ==> !regex_matches(pat, #[trigger] msgs[j]),
            decreases self.buffer@.len() - i,
        {
            assert(msgs[i as int] == self.buffer@[i as int]@);
            if command.matches(self.buffer[i].as_str()) {
                let new = command.apply_to(self.buffer[i].as_str());
                let answer = new.clone();
                let ghost before = self.buffer@;
                let _ = self.buffer.remove(i);
                self.buffer.insert(i, new);
                proof {
                    let w = choose|k: int|
                        0 <= k < msgs.len() && regex_matches(pat, #[trigger] msgs[k]) && forall|
                            j: int,
                        | 0 <= j < k ==> !regex_matches(pat, #[trigger] msgs[j]);
                    assert(0 <= i < msgs.len() && regex_matches(pat, msgs[i as int]));
                    if w < i {
                    } else if w > i {
                    }
                    assert(self.buffer@ =~= before.update(i as int, new));
                    assert(strings_view(self.buffer@) =~= msgs.update(i as int, new@));
                }
                return Some(answer);
            }
            i += 1;
        }
        None
    }
}

} // verus!
