//! What each thing that the user types is for.

use crate::events::{IrcEventView, RequestView};
use crate::letter_case::lowercase_text;
use crate::outgoing::{
    command_plan, failure_text, packed, plan, typed_arg, typed_name, OutgoingView, Typist,
};
use crate::text::{is_white, lemma_first_at, lemma_split_joined, trim};
use crate::text_laws::{is_blank, law_blank_edges_are_trimmed};
use vstd::prelude::*;

verus! {

/// `request` is sent, and nothing is shown.
pub open spec fn sends(out: OutgoingView, request: RequestView) -> bool {
    out.request == Some(request) && out.echo is None
}

/// `text` is sent to `target`, and shown there behind the nickname, unless the server sends it
/// back.
pub open spec fn is_said(out: OutgoingView, typist: Typist, target: Seq<char>, text: Seq<char>)
    -> bool {
    &&& out.request == Some(RequestView::Privmsg { target, text })
    &&& typist.server_echoes ==> out.echo is None
    &&& !typist.server_echoes ==> out.echo == Some(
        IrcEventView::Line {
            server: typist.server@,
            target,
            text: "<"@ + typist.nick@ + "> "@ + text,
        },
    )
}

/// What is no command is said, as it is, to what is selected.
pub proof fn law_what_is_no_command_is_said(typist: Typist, line: Seq<char>)
    requires
        line.len() == 0 || line[0] != '/',
    ensures
        is_said(plan(typist, line), typist, typist.target@, line),
{
}

/// A command is known by the small letters of what stands between the slash and the first
/// blank. Its argument is what follows, without white space at its ends.
pub proof fn law_commands_are_read_off_the_line(
    typist: Typist,
    name: Seq<char>,
    lead: Seq<char>,
    arg: Seq<char>,
    tail: Seq<char>,
)
    requires
        !name.contains(' '),
        is_blank(lead),
        is_blank(tail),
        arg.len() == 0 || (!is_white(arg[0]) && !is_white(arg.last())),
    ensures
        ({
            let line = seq!['/'] + name + seq![' '] + (lead + arg + tail);
            &&& typed_name(line) == name
            &&& typed_arg(line) == arg
            &&& plan(typist, line) == command_plan(typist, lowercase_text(name), arg)
        }),
        plan(typist, seq!['/'] + name) == command_plan(
            typist,
            lowercase_text(name),
            Seq::empty(),
        ),
{
    let line = seq!['/'] + name + seq![' '] + (lead + arg + tail);
    assert(line.skip(1) =~= name + seq![' '] + (lead + arg + tail));
    lemma_split_joined(name, ' ', lead + arg + tail);
    law_blank_edges_are_trimmed(lead, arg, tail);
    let bare = seq!['/'] + name;
    assert(bare.skip(1) =~= name);
    lemma_first_at(name, ' ');
    assert(typed_name(bare) =~= name);
    law_blank_edges_are_trimmed(Seq::empty(), Seq::empty(), Seq::empty());
    assert(Seq::<char>::empty() + Seq::<char>::empty() + Seq::<char>::empty()
        =~= Seq::<char>::empty());
    assert(typed_arg(bare) =~= Seq::<char>::empty());
}

/// The names of the commands differ.
proof fn lemma_names_differ()
    ensures
        "join"@.len() == 4 && "part"@.len() == 4 && "nick"@.len() == 4 && "msg"@.len() == 3,
        "invite"@.len() == 6 && "raw"@.len() == 3 && "quote"@.len() == 5,
        "join"@[0] == 'j' && "part"@[0] == 'p' && "nick"@[0] == 'n' && "msg"@[0] == 'm' && "raw"@[0]
            == 'r',
{
    reveal_strlit("join");
    reveal_strlit("part");
    reveal_strlit("nick");
    reveal_strlit("msg");
    reveal_strlit("invite");
    reveal_strlit("raw");
    reveal_strlit("quote");
}

/// A private message goes to exactly the target that it names, with exactly the text behind it,
/// whatever is selected.
pub proof fn law_private_messages_go_where_they_are_sent(
    typist: Typist,
    name: Seq<char>,
    target: Seq<char>,
    text: Seq<char>,
)
    requires
        !name.contains(' '),
        lowercase_text(name) == "msg"@,
        target.len() > 0,
        !target.contains(' '),
        !is_white(target[0]),
        text.len() > 0,
        !is_white(text.last()),
    ensures
        is_said(
            plan(typist, seq!['/'] + name + seq![' '] + target + seq![' '] + text),
            typist,
            target,
            text,
        ),
{
    let arg = target + seq![' '] + text;
    let none = Seq::<char>::empty();
    law_commands_are_read_off_the_line(typist, name, none, arg, none);
    assert(none + arg + none =~= arg);
    assert(seq!['/'] + name + seq![' '] + target + seq![' '] + text =~= seq!['/'] + name + seq![' ']
        + arg);
    lemma_names_differ();
    lemma_split_joined(target, ' ', text);
}

/// A private message as the command is told by its name in small letters.
pub proof fn law_messages_name_their_target(typist: Typist, target: Seq<char>, text: Seq<char>)
    requires
        !target.contains(' '),
    ensures
        is_said(command_plan(typist, "msg"@, target + seq![' '] + text), typist, target, text),
        command_plan(typist, "msg"@, target).request is None,
        command_plan(typist, "msg"@, target).echo is None,
{
    lemma_names_differ();
    lemma_split_joined(target, ' ', text);
}

/// What each of the other commands sends. None of them shows anything, and none goes anywhere
/// but where its argument says, or where it has none, where something is selected.
pub proof fn law_commands_do_what_they_say(typist: Typist, arg: Seq<char>)
    requires
        arg.len() > 0,
    ensures
        sends(command_plan(typist, "join"@, arg), RequestView::Join { channel: arg }),
        sends(command_plan(typist, "part"@, arg), RequestView::Part { channel: arg }),
        sends(
            command_plan(typist, "part"@, Seq::empty()),
            RequestView::Part { channel: typist.target@ },
        ),
        sends(command_plan(typist, "nick"@, arg), RequestView::Nick { nick: arg }),
        sends(command_plan(typist, "raw"@, arg), RequestView::Line(arg)),
        sends(command_plan(typist, "quote"@, arg), RequestView::Line(arg)),
        sends(command_plan(typist, "raw"@, Seq::empty()), RequestView::Line(Seq::empty())),
        sends(command_plan(typist, "quote"@, Seq::empty()), RequestView::Line(Seq::empty())),
{
    lemma_names_differ();
}

/// An invitation goes to the nickname that comes first. It is for the channel behind it, and
/// where there is none, for what is selected.
pub proof fn law_invitations_name_their_guest(
    typist: Typist,
    nick: Seq<char>,
    lead: Seq<char>,
    channel: Seq<char>,
)
    requires
        nick.len() > 0,
        !nick.contains(' '),
        channel.len() > 0,
        !is_white(channel[0]),
        !is_white(channel.last()),
        is_blank(lead),
    ensures
        sends(
            command_plan(typist, "invite"@, nick + seq![' '] + (lead + channel)),
            RequestView::Invite { nick, channel },
        ),
        sends(
            command_plan(typist, "invite"@, nick),
            RequestView::Invite { nick, channel: typist.target@ },
        ),
{
    lemma_names_differ();
    lemma_split_joined(nick, ' ', lead + channel);
    law_blank_edges_are_trimmed(lead, channel, Seq::empty());
    assert(lead + channel + Seq::<char>::empty() =~= lead + channel);
    lemma_first_at(nick, ' ');
    assert(crate::text::before(nick, ' ') =~= nick);
    law_blank_edges_are_trimmed(Seq::empty(), Seq::empty(), Seq::empty());
    assert(Seq::<char>::empty() + Seq::<char>::empty() + Seq::<char>::empty()
        =~= Seq::<char>::empty());
    assert(trim(Seq::empty()) == Seq::<char>::empty());
}

/// A command that is not known, and one that lacks its argument, is told to what is selected.
pub proof fn law_unknown_commands_are_told(typist: Typist, name: Seq<char>, arg: Seq<char>)
    requires
        ({
            let known = name == "join"@ || name == "nick"@ || name == "invite"@;
            let always = name == "part"@ || name == "msg"@ || name == "raw"@ || name == "quote"@;
            !always && (known ==> arg.len() == 0)
        }),
    ensures
        sends(
            command_plan(typist, name, arg),
            RequestView::Privmsg {
                target: typist.target@,
                text: "(unknown command /"@ + name + ", sent as text)"@,
            },
        ),
{
}

/// A line is handed to a connection as its target, the separator and its text, with nothing
/// left out; what goes wrong is shown behind what was tried.
pub proof fn law_lines_are_handed_on_whole(a: Seq<char>, b: Seq<char>)
    ensures
        packed(a, b) == a + seq!['\u{1}'] + b,
        failure_text(a, b) == a + " error: "@ + b,
{
}

} // verus!
