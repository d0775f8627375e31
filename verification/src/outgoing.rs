//! What the user has typed, and what is sent for it.

use crate::events::{
    server_line, IrcEvent, IrcEventView, Request, RequestView, SERVER_TARGET,
};
use crate::letter_case::{ascii_lower, is_ascii_text, lowercase, lowercase_text};
use crate::outgoing_laws::{
    law_commands_are_read_off_the_line, law_messages_name_their_target,
};
use crate::text::{
    after, before, cat, cat3, head_of, is_white, lemma_split_joined, same, split_once, tail_of, trim,
    trimmed,
};
use vstd::prelude::*;

verus! {

/// The character between the target and the text of a line that is handed to a connection.
pub const TARGET_SEPARATOR: char = '\u{1}';

/// A line that is handed to a connection: the target that was selected when it was typed, and
/// its text.
pub open spec fn packed(target: Seq<char>, text: Seq<char>) -> Seq<char> {
    target + seq![TARGET_SEPARATOR] + text
}

/// A line that is handed to a connection.
pub fn pack(target: &str, text: &str) -> (line: String)
    ensures
        line@ == packed(target@, text@),
{
    proof {
        reveal_strlit("\u{1}");
        assert("\u{1}"@ =~= seq![TARGET_SEPARATOR]);
    }
    cat3(target, "\u{1}", text)
}

/// The target and the text of a line that was handed to a connection.
pub fn unpack(line: &str) -> (parts: (String, String))
    ensures
        parts.0@ == before(line@, TARGET_SEPARATOR),
        parts.1@ == after(line@, TARGET_SEPARATOR),
{
    (head_of(line, TARGET_SEPARATOR), tail_of(line, TARGET_SEPARATOR))
}

/// A connection gets the target and the text that were handed to it, whatever the text is.
pub proof fn law_packing_loses_nothing(target: Seq<char>, text: Seq<char>)
    requires
        !target.contains(TARGET_SEPARATOR),
    ensures
        before(packed(target, text), TARGET_SEPARATOR) == target,
        after(packed(target, text), TARGET_SEPARATOR) == text,
{
    lemma_split_joined(target, TARGET_SEPARATOR, text);
}

/// What is done for a line that the user has typed.
#[derive(Debug, PartialEq)]
pub struct Outgoing {
    /// What is sent.
    pub request: Option<Request>,
    /// What is shown once it was sent.
    pub echo: Option<IrcEvent>,
}

/// What an [`Outgoing`] is.
pub struct OutgoingView {
    pub request: Option<RequestView>,
    pub echo: Option<IrcEventView>,
}

impl View for Outgoing {
    type V = OutgoingView;

    open spec fn view(&self) -> OutgoingView {
        OutgoingView {
            request: match self.request {
                Some(request) => Some(request@),
                None => None,
            },
            echo: match self.echo {
                Some(event) => Some(event@),
                None => None,
            },
        }
    }
}

/// Who types, on which connection, and for whom.
pub struct Typist {
    pub server: String,
    pub nick: String,
    /// The target that is selected.
    pub target: String,
    /// Whether the server sends back what it is sent.
    pub server_echoes: bool,
}

/// Only this is sent.
pub open spec fn only_send(request: RequestView) -> OutgoingView {
    OutgoingView { request: Some(request), echo: None }
}

/// `text` is said to `target`, and shown there unless the server sends it back.
pub open spec fn say(typist: Typist, target: Seq<char>, text: Seq<char>) -> OutgoingView {
    OutgoingView {
        request: Some(RequestView::Privmsg { target, text }),
        echo: if typist.server_echoes {
            None
        } else {
            Some(
                IrcEventView::Line {
                    server: typist.server@,
                    target,
                    text: "<"@ + typist.nick@ + "> "@ + text,
                },
            )
        },
    }
}

/// What is done for the command `name`, in small letters, with the argument `arg`. A command
/// that is not known, or that lacks an argument that it cannot do without, is told to the
/// target that is selected.
pub open spec fn command_plan(typist: Typist, name: Seq<char>, arg: Seq<char>) -> OutgoingView {
    if name == "join"@ && arg.len() > 0 {
        only_send(RequestView::Join { channel: arg })
    } else if name == "part"@ {
        only_send(
            RequestView::Part {
                channel: if arg.len() == 0 {
                    typist.target@
                } else {
                    arg
                },
            },
        )
    } else if name == "nick"@ && arg.len() > 0 {
        only_send(RequestView::Nick { nick: arg })
    } else if name == "msg"@ {
        if arg.contains(' ') {
            say(typist, before(arg, ' '), after(arg, ' '))
        } else {
            OutgoingView { request: None, echo: None }
        }
    } else if name == "invite"@ && arg.len() > 0 {
        only_send(
            RequestView::Invite {
                nick: before(arg, ' '),
                channel: if trim(after(arg, ' ')).len() == 0 {
                    typist.target@
                } else {
                    trim(after(arg, ' '))
                },
            },
        )
    } else if name == "raw"@ || name == "quote"@ {
        only_send(RequestView::Line(arg))
    } else {
        only_send(
            RequestView::Privmsg {
                target: typist.target@,
                text: "(unknown command /"@ + name + ", sent as text)"@,
            },
        )
    }
}

/// The name of the command in a line that starts with a slash, as it was typed.
pub open spec fn typed_name(line: Seq<char>) -> Seq<char> {
    before(line.skip(1), ' ')
}

/// The argument of the command in a line that starts with a slash.
pub open spec fn typed_arg(line: Seq<char>) -> Seq<char> {
    trim(after(line.skip(1), ' '))
}

/// What is done for `line`: a line that starts with a slash is a command, any other is said
/// to the target that is selected.
pub open spec fn plan(typist: Typist, line: Seq<char>) -> OutgoingView {
    if line.len() > 0 && line[0] == '/' {
        command_plan(typist, lowercase_text(typed_name(line)), typed_arg(line))
    } else {
        say(typist, typist.target@, line)
    }
}

/// `text` is said to `target`, and shown there unless the server sends it back.
fn speak(typist: &Typist, target: &str, text: &str) -> (out: Outgoing)
    ensures
        out@ == say(*typist, target@, text@),
{
    let echo = if typist.server_echoes {
        None
    } else {
        let mut shown = cat3("<", typist.nick.as_str(), "> ");
        shown.append(text);
        Some(
            IrcEvent::Line {
                server: typist.server.clone(),
                target: target.to_owned(),
                text: shown,
            },
        )
    };
    Outgoing {
        request: Some(Request::Privmsg { target: target.to_owned(), text: text.to_owned() }),
        echo,
    }
}

/// What is done for the command `name`, in small letters, with the argument `arg`.
pub fn run_command(typist: &Typist, name: &str, arg: &str) -> (out: Outgoing)
    ensures
        out@ == command_plan(*typist, name@, arg@),
{
    if same(name, "join") && !arg.is_empty() {
        Outgoing { request: Some(Request::Join { channel: arg.to_owned() }), echo: None }
    } else if same(name, "part") {
        let channel = if arg.is_empty() {
            typist.target.clone()
        } else {
            arg.to_owned()
        };
        Outgoing { request: Some(Request::Part { channel }), echo: None }
    } else if same(name, "nick") && !arg.is_empty() {
        Outgoing { request: Some(Request::Nick { nick: arg.to_owned() }), echo: None }
    } else if same(name, "msg") {
        match split_once(arg, ' ') {
            Some((target, text)) => speak(typist, target.as_str(), text.as_str()),
            None => Outgoing { request: None, echo: None },
        }
    } else if same(name, "invite") && !arg.is_empty() {
        let nick = head_of(arg, ' ');
        let named = trimmed(tail_of(arg, ' ').as_str());
        let channel = if named.as_str().is_empty() {
            typist.target.clone()
        } else {
            named
        };
        Outgoing { request: Some(Request::Invite { nick, channel }), echo: None }
    } else if same(name, "raw") || same(name, "quote") {
        Outgoing { request: Some(Request::Line(arg.to_owned())), echo: None }
    } else {
        Outgoing {
            request: Some(
                Request::Privmsg {
                    target: typist.target.clone(),
                    text: cat3("(unknown command /", name, ", sent as text)"),
                },
            ),
            echo: None,
        }
    }
}

/// Whether `line` is a private message with the text `text` to `target`, typed out.
pub open spec fn is_message_to(line: Seq<char>, target: Seq<char>, text: Seq<char>) -> bool {
    &&& line == "/msg "@ + target + seq![' '] + text
    &&& target.len() > 0 && !target.contains(' ') && !is_white(target[0])
    &&& text.len() > 0 && !is_white(text.last())
}

/// What is done for `line`. A command in ASCII letters is known by its small letters. A private
/// message goes to the target that it names, whatever is selected.
pub fn handle_outgoing(typist: &Typist, line: &str) -> (out: Outgoing)
    ensures
        out@ == plan(*typist, line@),
        line@.len() > 0 && line@[0] == '/' && is_ascii_text(typed_name(line@)) ==> out@
            == command_plan(
            *typist,
            typed_name(line@).map_values(|c: char| ascii_lower(c)),
            typed_arg(line@),
        ),
        forall|target: Seq<char>, text: Seq<char>| #[trigger]
            is_message_to(line@, target, text) ==> out@.request == Some(
                RequestView::Privmsg { target, text },
            ),
{
    proof {
        assert forall|target: Seq<char>, text: Seq<char>| #[trigger]
            is_message_to(line@, target, text) implies line@.len() > 0 && line@[0] == '/'
            && is_ascii_text(typed_name(line@)) && command_plan(
            *typist,
            typed_name(line@).map_values(|c: char| ascii_lower(c)),
            typed_arg(line@),
        ).request == Some(RequestView::Privmsg { target, text }) by {
            reveal_strlit("/msg ");
            reveal_strlit("msg");
            let arg = target + seq![' '] + text;
            let none = Seq::<char>::empty();
            assert(none + arg + none =~= arg);
            assert(line@ =~= seq!['/'] + "msg"@ + seq![' '] + arg);
            assert(!"msg"@.contains(' '));
            law_commands_are_read_off_the_line(*typist, "msg"@, none, arg, none);
            assert("msg"@.map_values(|c: char| ascii_lower(c)) =~= "msg"@);
            law_messages_name_their_target(*typist, target, text);
        }
    }
    let n: usize = line.unicode_len();
    if n > 0 && line.get_char(0) == '/' {
        let rest = line.substring_char(1, n);
        assert(rest@ =~= line@.skip(1));
        let name = lowercase(head_of(rest, ' ').as_str());
        let arg = trimmed(tail_of(rest, ' ').as_str());
        run_command(typist, name.as_str(), arg.as_str())
    } else {
        speak(typist, typist.target.as_str(), line)
    }
}

/// What is shown once the request of `outgoing` was sent, or could not be sent because of
/// `error`: then the error, among the lines of the server, in the place of what was said.
pub fn finish_outgoing(server: &str, outgoing: Outgoing, error: Option<String>) -> (shown: Option<
    IrcEvent,
>)
    ensures
        match error {
            Some(e) => shown matches Some(event) && event@ == (IrcEventView::Line {
                server: server@,
                target: SERVER_TARGET@,
                text: "error: "@ + e@,
            }),
            None => shown == outgoing.echo,
        },
{
    match error {
        Some(e) => Some(server_line(server, cat("error: ", e.as_str()))),
        None => outgoing.echo,
    }
}

/// A line that is no command is sent as it is to the target that is selected, and shown by
/// the client unless the server sends it back.
pub proof fn law_plain_lines_are_said(typist: Typist, line: Seq<char>)
    requires
        line.len() == 0 || line[0] != '/',
    ensures
        plan(typist, line).request == Some(
            RequestView::Privmsg { target: typist.target@, text: line },
        ),
        plan(typist, line).echo is Some <==> !typist.server_echoes,
{
}

/// Nothing is shown of what is typed but what is said: wherever there is an echo, it is shown
/// at the target that the text is sent to, and it tells that text.
pub proof fn law_only_what_is_said_is_shown(typist: Typist, line: Seq<char>)
    ensures
        plan(typist, line).echo matches Some(event) ==> {
            &&& plan(typist, line).request matches Some(RequestView::Privmsg { target, text })
            &&& event == (IrcEventView::Line {
                server: typist.server@,
                target,
                text: "<"@ + typist.nick@ + "> "@ + text,
            })
        },
        typist.server_echoes ==> plan(typist, line).echo is None,
{
}

/// What goes wrong on a connection, as it is shown.
pub open spec fn failure_text(stage: Seq<char>, error: Seq<char>) -> Seq<char> {
    stage + " error: "@ + error
}

/// What goes wrong on a connection to `server`, among the lines of the server.
pub fn failure(server: &str, stage: &str, error: &str) -> (event: IrcEvent)
    ensures
        event@ == (IrcEventView::Line {
            server: server@,
            target: SERVER_TARGET@,
            text: failure_text(stage@, error@),
        }),
{
    server_line(server, cat3(stage, " error: ", error))
}

/// What is stated of what is sent and shown is stated of all of it.
pub proof fn law_nothing_is_left_out_of_what_is_done(out: Outgoing)
    ensures
        out.request matches Some(request) ==> out@.request == Some(request@),
        out.request is None ==> out@.request is None,
        out.echo matches Some(event) ==> out@.echo == Some(event@),
        out.echo is None ==> out@.echo is None,
{
}

} // verus!
