//! What the bot asks the connection to do, and the IRC lines it sends.
use crate::text::{extend, extend_str, from_chars};
use vstd::prelude::*;

verus! {

/// A request for ANSI art that needs the file system.
#[derive(Debug, PartialEq, Eq)]
pub enum ArtRequest {
    /// Send a file picked at random from this directory.
    Random { dir: String },
    /// List this directory.
    List { dir: String },
    /// Send this file.
    Show { path: String },
}

/// The meaning of an art request.
pub enum ArtRequestView {
    Random { dir: Seq<char> },
    List { dir: Seq<char> },
    Show { path: Seq<char> },
}

/// One step of output.
#[derive(Debug, PartialEq, Eq)]
pub enum Action {
    /// Write this raw line (it carries its own `\r\n`).
    Send(String),
    /// Wait this many milliseconds.
    SleepMillis(u64),
    /// Wait this many seconds.
    SleepSecs(u64),
    /// Serve an art request, answering in `channel`.
    Art { channel: String, request: ArtRequest },
}

/// The meaning of an action.
pub enum ActionView {
    Send(Seq<char>),
    SleepMillis(u64),
    SleepSecs(u64),
    Art { channel: Seq<char>, request: ArtRequestView },
}

impl View for ArtRequest {
    type V = ArtRequestView;

    open spec fn view(&self) -> ArtRequestView {
        match self {
            ArtRequest::Random { dir } => ArtRequestView::Random { dir: dir@ },
            ArtRequest::List { dir } => ArtRequestView::List { dir: dir@ },
            ArtRequest::Show { path } => ArtRequestView::Show { path: path@ },
        }
    }
}

impl View for Action {
    type V = ActionView;

    open spec fn view(&self) -> ActionView {
        match self {
            Action::Send(s) => ActionView::Send(s@),
            Action::SleepMillis(n) => ActionView::SleepMillis(*n),
            Action::SleepSecs(n) => ActionView::SleepSecs(*n),
            Action::Art { channel, request } => ActionView::Art {
                channel: channel@,
                request: request@,
            },
        }
    }
}

/// The views of a list of actions.
pub open spec fn actions_view(v: Seq<Action>) -> Seq<ActionView> {
    v.map_values(|a: Action| a@)
}

/// The view of a list with one more action is one more view.
pub proof fn lemma_actions_view_push(v: Seq<Action>, a: Action)
    ensures
        actions_view(v.push(a)) == actions_view(v).push(a@),
{
    assert(actions_view(v.push(a)) =~= actions_view(v).push(a@));
}

/// Appends `b` to `a`.
pub fn append_actions(a: &mut Vec<Action>, b: Vec<Action>)
    ensures
        actions_view(final(a)@) == actions_view(old(a)@) + actions_view(b@),
{
    let mut b = b;
    let ghost b0 = b@;
    a.append(&mut b);
    assert(actions_view(a@) =~= actions_view(old(a)@) + actions_view(b0));
}

/// The raw line `PRIVMSG <target> :<text>\r\n`.
pub open spec fn privmsg(target: Seq<char>, text: Seq<char>) -> Seq<char> {
    "PRIVMSG "@ + target + " :"@ + text + "\r\n"@
}

/// Builds `PRIVMSG <target> :<text>\r\n`.
pub fn privmsg_line(target: &Vec<char>, text: &Vec<char>) -> (res: String)
    ensures
        res@ == privmsg(target@, text@),
{
    let mut v: Vec<char> = Vec::new();
    extend_str(&mut v, "PRIVMSG ");
    extend(&mut v, target);
    extend_str(&mut v, " :");
    extend(&mut v, text);
    extend_str(&mut v, "\r\n");
    assert(v@ =~= privmsg(target@, text@));
    from_chars(&v)
}

/// The action that sends `PRIVMSG <target> :<text>\r\n`.
pub fn send_privmsg(target: &Vec<char>, text: &Vec<char>) -> (res: Action)
    ensures
        res@ == ActionView::Send(privmsg(target@, text@)),
{
    Action::Send(privmsg_line(target, text))
}

} // verus!
