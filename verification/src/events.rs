//! What the client does in answer to what happens: lines and lists to show, requests to send.

use crate::caps::Capability;
use crate::text::texts;
use vstd::prelude::*;

verus! {

/// The target under which a server's own lines are shown.
pub const SERVER_TARGET: &'static str = "(server)";

/// Something to show.
#[derive(Debug, PartialEq)]
pub enum IrcEvent {
    /// A line for the buffer of `target` on `server`.
    Line { server: String, target: String, text: String },
    /// All members of `channel` on `server`, and those of them that are away.
    Names { server: String, channel: String, nicks: Vec<String>, away: Vec<String> },
}

/// What an [`IrcEvent`] shows.
pub enum IrcEventView {
    Line { server: Seq<char>, target: Seq<char>, text: Seq<char> },
    Names {
        server: Seq<char>,
        channel: Seq<char>,
        nicks: Seq<Seq<char>>,
        away: Seq<Seq<char>>,
    },
}

impl View for IrcEvent {
    type V = IrcEventView;

    open spec fn view(&self) -> IrcEventView {
        match *self {
            IrcEvent::Line { server, target, text } => IrcEventView::Line {
                server: server@,
                target: target@,
                text: text@,
            },
            IrcEvent::Names { server, channel, nicks, away } => IrcEventView::Names {
                server: server@,
                channel: channel@,
                nicks: texts(nicks@),
                away: texts(away@),
            },
        }
    }
}

/// A line among those of `server` itself.
pub fn server_line(server: &str, text: String) -> (event: IrcEvent)
    ensures
        event@ == (IrcEventView::Line { server: server@, target: SERVER_TARGET@, text: text@ }),
{
    IrcEvent::Line { server: server.to_owned(), target: SERVER_TARGET.to_owned(), text }
}

/// Something to send to the server.
#[derive(Debug, PartialEq)]
pub enum Request {
    Privmsg { target: String, text: String },
    Notice { target: String, text: String },
    Join { channel: String },
    Part { channel: String },
    Nick { nick: String },
    Invite { nick: String, channel: String },
    /// Ask for capabilities.
    Capabilities(Vec<Capability>),
    /// A command with its parameters, sent as they are.
    Raw { name: String, args: Vec<String> },
    /// A line that the user has written out.
    Line(String),
}

/// What a [`Request`] says.
pub enum RequestView {
    Privmsg { target: Seq<char>, text: Seq<char> },
    Notice { target: Seq<char>, text: Seq<char> },
    Join { channel: Seq<char> },
    Part { channel: Seq<char> },
    Nick { nick: Seq<char> },
    Invite { nick: Seq<char>, channel: Seq<char> },
    Capabilities(Seq<Capability>),
    Raw { name: Seq<char>, args: Seq<Seq<char>> },
    Line(Seq<char>),
}

impl View for Request {
    type V = RequestView;

    open spec fn view(&self) -> RequestView {
        match *self {
            Request::Privmsg { target, text } => RequestView::Privmsg {
                target: target@,
                text: text@,
            },
            Request::Notice { target, text } => RequestView::Notice {
                target: target@,
                text: text@,
            },
            Request::Join { channel } => RequestView::Join { channel: channel@ },
            Request::Part { channel } => RequestView::Part { channel: channel@ },
            Request::Nick { nick } => RequestView::Nick { nick: nick@ },
            Request::Invite { nick, channel } => RequestView::Invite {
                nick: nick@,
                channel: channel@,
            },
            Request::Capabilities(list) => RequestView::Capabilities(list@),
            Request::Raw { name, args } => RequestView::Raw { name: name@, args: texts(args@) },
            Request::Line(line) => RequestView::Line(line@),
        }
    }
}

/// Something to show or to send.
#[derive(Debug, PartialEq)]
pub enum Action {
    Show(IrcEvent),
    Send(Request),
}

/// What an [`Action`] is.
pub enum ActionView {
    Show(IrcEventView),
    Send(RequestView),
}

impl View for Action {
    type V = ActionView;

    open spec fn view(&self) -> ActionView {
        match *self {
            Action::Show(event) => ActionView::Show(event@),
            Action::Send(request) => ActionView::Send(request@),
        }
    }
}

/// What the actions of `v` are, in order.
pub open spec fn actions(v: Seq<Action>) -> Seq<ActionView> {
    Seq::new(v.len(), |i: int| v[i]@)
}

/// Pushing an action pushes what it is.
pub broadcast proof fn lemma_actions_push(v: Seq<Action>, action: Action)
    ensures
        #[trigger] actions(v.push(action)) == actions(v).push(action@),
{
    assert(actions(v.push(action)) =~= actions(v).push(action@));
}

/// What is stated of events and requests is stated of all that they hold.
pub proof fn law_views_leave_nothing_out(event: IrcEvent, request: Request)
    ensures
        event matches IrcEvent::Line { server, target, text } ==> event@ == (IrcEventView::Line {
            server: server@,
            target: target@,
            text: text@,
        }),
        event matches IrcEvent::Names { server, channel, nicks, away } ==> event@ == (
        IrcEventView::Names {
            server: server@,
            channel: channel@,
            nicks: texts(nicks@),
            away: texts(away@),
        }),
        request matches Request::Privmsg { target, text } ==> request@ == (RequestView::Privmsg {
            target: target@,
            text: text@,
        }),
        request matches Request::Notice { target, text } ==> request@ == (RequestView::Notice {
            target: target@,
            text: text@,
        }),
        request matches Request::Join { channel } ==> request@ == (RequestView::Join {
            channel: channel@,
        }),
        request matches Request::Part { channel } ==> request@ == (RequestView::Part {
            channel: channel@,
        }),
        request matches Request::Nick { nick } ==> request@ == (RequestView::Nick { nick: nick@ }),
        request matches Request::Invite { nick, channel } ==> request@ == (RequestView::Invite {
            nick: nick@,
            channel: channel@,
        }),
        request matches Request::Capabilities(list) ==> request@ == RequestView::Capabilities(
            list@,
        ),
        request matches Request::Raw { name, args } ==> request@ == (RequestView::Raw {
            name: name@,
            args: texts(args@),
        }),
        request matches Request::Line(line) ==> request@ == RequestView::Line(line@),
        Action::Show(event)@ == ActionView::Show(event@),
        Action::Send(request)@ == ActionView::Send(request@),
{
}

} // verus!
