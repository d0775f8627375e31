//! What a session with a server knows, and what each message does to it.

use crate::caps::{acknowledged, offered_names, to_request};
use crate::ctcp::{answer_to, ascii_answer_to, delimited, has_ascii_command, DELIMITER};
use crate::events::{ActionView, IrcEventView, RequestView, SERVER_TARGET};
use crate::message::{
    marked, optional, raw_text, sender_of, CapKind, Command, Message, Prefix, Tag,
};
use crate::negotiate::last_param;
use crate::roster::{removed, renamed, RosterView};
use crate::sorting::sorted_set;
use crate::text::{
    after, before, drop_leading, drop_trailing, join, texts, words_of,
};
use vstd::prelude::*;

verus! {

/// The first characters of channel names, as long as the server does not say otherwise.
pub const USUAL_CHANNEL_TYPES: &'static str = "#&!+";

/// The marks of rank before nicknames, as long as the server does not say otherwise.
pub const USUAL_RANKS: &'static str = "@+%~&";

/// How many lines of a channel's history are asked for when it is joined.
pub const HISTORY_LINES: &'static str = "50";

/// A message that is being put together from the lines of a batch.
pub struct SaidView {
    pub sender: Seq<char>,
    pub target: Seq<char>,
    pub text: Seq<char>,
    pub notice: bool,
}

/// A batch of lines that make one message.
pub struct BatchView {
    pub reference: Seq<char>,
    /// What the lines that came say together: nothing as long as none came.
    pub said: Option<SaidView>,
}

/// What a session knows.
#[verifier::ext_equal]
pub struct SessionView {
    /// The name of the server.
    pub server: Seq<char>,
    /// The members of each channel.
    pub members: RosterView,
    /// The members of each channel that were listed so far, until the list is complete.
    pub names: RosterView,
    /// The names of the capabilities that the server has granted.
    pub granted: Seq<Seq<char>>,
    /// The first characters of channel names.
    pub channel_types: Seq<char>,
    /// The marks of rank before nicknames.
    pub ranks: Seq<char>,
    /// Whether the server can be asked for chosen fields of its users.
    pub whox: bool,
    /// The nicknames of those who are away.
    pub away: Seq<Seq<char>>,
    /// The channels of which the server was asked who is away, until it has told it of all.
    pub asked: Seq<Seq<char>>,
    /// The batches that are not complete.
    pub batches: Seq<BatchView>,
}

/// The place of the first batch of the reference `reference`: behind all where there is none.
pub open spec fn batch_at(batches: Seq<BatchView>, reference: Seq<char>) -> int
    decreases batches.len(),
{
    if batches.len() == 0 || batches[0].reference == reference {
        0
    } else {
        1 + batch_at(batches.skip(1), reference)
    }
}

/// Where the first batch of a reference stands, without recursion.
pub proof fn lemma_batch_at(batches: Seq<BatchView>, reference: Seq<char>, i: int)
    requires
        0 <= i <= batches.len(),
        forall|j: int| 0 <= j < i ==> (#[trigger] batches[j]).reference != reference,
        i < batches.len() ==> batches[i].reference == reference,
    ensures
        batch_at(batches, reference) == i,
    decreases batches.len(),
{
    if i > 0 {
        let rest = batches.skip(1);
        assert(batches[0].reference != reference);
        assert forall|j: int| 0 <= j < i - 1 implies (#[trigger] rest[j]).reference != reference by {
            assert(rest[j] == batches[j + 1]);
        }
        lemma_batch_at(rest, reference, i - 1);
    }
}

/// The value of the first tag of the key `key`.
pub open spec fn tag_value(tags: Seq<Tag>, key: Seq<char>) -> Option<Seq<char>>
    decreases tags.len(),
{
    if tags.len() == 0 {
        None
    } else if tags[0].key@ == key {
        Some(
            match tags[0].value {
                Some(value) => value@,
                None => Seq::empty(),
            },
        )
    } else {
        tag_value(tags.skip(1), key)
    }
}

/// The value of the first tag of `message` of the key `key`.
pub open spec fn tag_of(message: Message, key: Seq<char>) -> Option<Seq<char>> {
    match message.tags {
        Some(tags) => tag_value(tags@, key),
        None => None,
    }
}

/// A reason in brackets behind a line, where one is given.
pub open spec fn reason_text(reason: Option<String>) -> Seq<char> {
    match reason {
        Some(text) => " ("@ + text@ + ")"@,
        None => Seq::empty(),
    }
}

/// Part of a line between `open` and `close`, or nothing where the part is empty.
pub open spec fn bracketed(open: Seq<char>, part: Seq<char>, close: Seq<char>) -> Seq<char> {
    if part.len() == 0 {
        Seq::empty()
    } else {
        open + part + close
    }
}

/// The account in a line of a join: nothing for one who is not logged in.
pub open spec fn account_text(account: Option<String>) -> Seq<char> {
    match account {
        Some(name) => if name@ == "*"@ {
            Seq::empty()
        } else {
            bracketed(" ["@, name@, "]"@)
        },
        None => Seq::empty(),
    }
}

/// The real name in a line of a join.
pub open spec fn realname_text(realname: Option<String>) -> Seq<char> {
    match realname {
        Some(name) => bracketed(" ("@, name@, ")"@),
        None => Seq::empty(),
    }
}

/// User and host of whom a message comes from.
pub open spec fn user_and_host(prefix: Option<Prefix>) -> Seq<char> {
    match prefix {
        Some(Prefix::Nickname(_, user, host)) => user@ + marked('@', host@),
        _ => Seq::empty(),
    }
}

/// The line of a join: `nick [account] (realname) (user@host) has joined #channel`, without
/// what is not known.
pub open spec fn join_text(
    message: Message,
    channel: Seq<char>,
    account: Option<String>,
    realname: Option<String>,
) -> Seq<char> {
    sender_of(message) + account_text(account) + realname_text(realname) + bracketed(
        " ("@,
        user_and_host(message.prefix),
        ")"@,
    ) + " has joined "@ + channel
}

/// Whether `text` is a CTCP request and no chat.
pub open spec fn is_ctcp(text: Seq<char>) -> bool {
    text.len() > 0 && text[0] == DELIMITER && text.last() == DELIMITER
}

/// A CTCP request without its delimiters.
pub open spec fn ctcp_body(text: Seq<char>) -> Seq<char> {
    drop_leading(drop_trailing(text, set![DELIMITER]), set![DELIMITER])
}

/// Whether the lines of a batch of the type `kind` make one message. The type is told in small
/// letters, or in capital ones where the message was read by a reader that does not keep them.
pub open spec fn is_multiline(kind: Option<Seq<char>>) -> bool {
    kind == Some("draft/multiline"@) || kind == Some("DRAFT/MULTILINE"@)
}

/// The nickname in an entry of a list of members: without marks of rank before it, and
/// without user and host behind it.
pub open spec fn entry_nick(entry: Seq<char>, ranks: Seq<char>) -> Seq<char> {
    before(drop_leading(entry, ranks.to_set()), '!')
}

/// The nicknames in a list of members.
pub open spec fn listed_nicks(list: Seq<char>, ranks: Seq<char>) -> Seq<Seq<char>> {
    words_of(list).map_values(|entry: Seq<char>| entry_nick(entry, ranks))
}

/// Those of `away` but `nick`, and `nick` where it is away.
pub open spec fn marked_away(away: Seq<Seq<char>>, nick: Seq<char>, is_away: bool) -> Seq<
    Seq<char>,
> {
    if is_away {
        removed(away, nick).push(nick)
    } else {
        removed(away, nick)
    }
}

impl SessionView {
    /// A session that begins.
    pub open spec fn begun(server: Seq<char>, granted: Seq<Seq<char>>) -> SessionView {
        SessionView {
            server,
            members: RosterView::none(),
            names: RosterView::none(),
            granted,
            channel_types: USUAL_CHANNEL_TYPES@,
            ranks: USUAL_RANKS@,
            whox: false,
            away: Seq::empty(),
            asked: Seq::empty(),
            batches: Seq::empty(),
        }
    }

    /// Whether the session can find out who is away, and learns when that changes.
    pub open spec fn checks_away(self) -> bool {
        self.whox && self.granted.contains("away-notify"@)
    }

    /// Whether `target` is a channel.
    pub open spec fn is_channel(self, target: Seq<char>) -> bool {
        target.len() > 0 && self.channel_types.contains(target[0])
    }

    /// The members of `channel` that are away.
    pub open spec fn away_in(self, channel: Seq<char>) -> Seq<Seq<char>> {
        self.members.get(channel).filter(|nick: Seq<char>| self.away.contains(nick))
    }

    /// The members of `channel`, to be shown.
    pub open spec fn show_names(self, channel: Seq<char>) -> ActionView {
        ActionView::Show(
            IrcEventView::Names {
                server: self.server,
                channel,
                nicks: self.members.get(channel),
                away: self.away_in(channel),
            },
        )
    }

    /// The members of each of `channels`, to be shown.
    pub open spec fn show_all_names(self, channels: Seq<Seq<char>>) -> Seq<ActionView> {
        channels.map_values(|channel: Seq<char>| self.show_names(channel))
    }

    /// A line for the buffer of `target`, to be shown.
    pub open spec fn show_line(self, target: Seq<char>, text: Seq<char>) -> ActionView {
        ActionView::Show(IrcEventView::Line { server: self.server, target, text })
    }

    /// What one token says of what the server supports.
    pub open spec fn with_token(self, token: Seq<char>) -> SessionView {
        let key = before(token, '=');
        let value = after(token, '=');
        if key == "CHANTYPES"@ {
            SessionView { channel_types: value, ..self }
        } else if key == "PREFIX"@ {
            SessionView { ranks: after(value, ')'), ..self }
        } else if key == "WHOX"@ {
            SessionView { whox: true, ..self }
        } else {
            self
        }
    }

    /// What a list of tokens says of what the server supports.
    pub open spec fn with_tokens(self, tokens: Seq<Seq<char>>) -> SessionView
        decreases tokens.len(),
    {
        if tokens.len() == 0 {
            self
        } else {
            self.with_tokens(tokens.drop_last()).with_token(tokens.last())
        }
    }

    /// More members of a channel are listed. The channel is the third argument, the list the
    /// last one.
    pub open spec fn on_names(self, args: Seq<Seq<char>>) -> SessionView {
        if args.len() > 2 {
            SessionView {
                names: self.names.set(
                    args[2],
                    self.names.get(args[2]) + listed_nicks(args.last(), self.ranks),
                ),
                ..self
            }
        } else {
            self
        }
    }

    /// The list of a channel's members is complete. The channel is the second argument. Where
    /// the server can tell who of them is away, it is asked.
    pub open spec fn on_names_end(self, args: Seq<Seq<char>>) -> (SessionView, Seq<ActionView>) {
        if args.len() > 1 {
            let channel = args[1];
            let next = SessionView {
                members: self.members.set(channel, sorted_set(self.names.get(channel))),
                names: self.names.without(channel),
                ..self
            };
            if next.checks_away() {
                (
                    SessionView { asked: self.asked.push(channel), ..next },
                    seq![
                        next.show_names(channel),
                        ActionView::Send(
                            RequestView::Raw { name: "WHO"@, args: seq![channel, "%nf"@] },
                        ),
                    ],
                )
            } else {
                (next, seq![next.show_names(channel)])
            }
        } else {
            (self, Seq::empty())
        }
    }

    /// The server has told of all members of a channel whether they are away. The channel is
    /// the second argument. Its members are shown where the session has asked.
    pub open spec fn on_who_end(self, args: Seq<Seq<char>>) -> (SessionView, Seq<ActionView>) {
        if args.len() > 1 && self.asked.contains(args[1]) {
            let next = SessionView { asked: self.asked.remove_value(args[1]), ..self };
            (next, seq![next.show_names(args[1])])
        } else {
            (self, Seq::empty())
        }
    }

    /// Whether a reply tells of somebody whether they are away, while an answer to what the
    /// session has asked is due: their nickname, and flags of which the first says whether
    /// they are here or gone.
    pub open spec fn is_away_reply(self, name: Seq<char>, args: Seq<Seq<char>>) -> bool {
        &&& name == "354"@
        &&& args.len() == 3
        &&& self.checks_away()
        &&& self.asked.len() > 0
        &&& args[2].len() > 0
        &&& args[2][0] == 'H' || args[2][0] == 'G'
    }

    /// A reply or a command that has no form of its own.
    pub open spec fn on_raw(self, name: Seq<char>, args: Seq<Seq<char>>) -> SessionView {
        if self.is_away_reply(name, args) {
            SessionView { away: marked_away(self.away, args[1], args[2][0] == 'G'), ..self }
        } else {
            self
        }
    }

    /// Somebody joins a channel. Of others the list of members is kept; when the client
    /// itself joins, the channel's history is asked for where the server has it.
    pub open spec fn on_join(self, our_nick: Seq<char>, sender: Seq<char>, channel: Seq<char>) -> (
        SessionView,
        Seq<ActionView>,
    ) {
        if sender != our_nick {
            let next = SessionView {
                members: self.members.set(channel, self.members.get(channel).push(sender)),
                ..self
            };
            (next, seq![next.show_names(channel)])
        } else if self.granted.contains("draft/chathistory"@) {
            (
                self,
                seq![
                    ActionView::Send(
                        RequestView::Raw {
                            name: "CHATHISTORY"@,
                            args: seq!["LATEST"@, channel, "*"@, HISTORY_LINES@],
                        },
                    ),
                ],
            )
        } else {
            (self, Seq::empty())
        }
    }

    /// `nick` leaves a channel.
    pub open spec fn on_leave(self, channel: Seq<char>, nick: Seq<char>) -> (
        SessionView,
        Seq<ActionView>,
    ) {
        let next = if self.members.lists.contains_key(channel) {
            SessionView {
                members: self.members.set(channel, removed(self.members.get(channel), nick)),
                ..self
            }
        } else {
            self
        };
        (next, seq![next.show_names(channel)])
    }

    /// `nick` leaves the server.
    pub open spec fn on_quit(self, nick: Seq<char>) -> (SessionView, Seq<ActionView>) {
        let next = SessionView {
            members: self.members.mapped(|list: Seq<Seq<char>>| removed(list, nick)),
            away: removed(self.away, nick),
            ..self
        };
        (next, next.show_all_names(self.members.holding(nick)))
    }

    /// `nick` goes by `new_nick` from now on.
    pub open spec fn on_nick(self, nick: Seq<char>, new_nick: Seq<char>) -> (
        SessionView,
        Seq<ActionView>,
    ) {
        let next = SessionView {
            members: self.members.mapped(|list: Seq<Seq<char>>| renamed(list, nick, new_nick)),
            away: renamed(self.away, nick, new_nick),
            ..self
        };
        (next, next.show_all_names(self.members.holding(nick)))
    }

    /// `nick` goes away or comes back.
    pub open spec fn on_away(self, nick: Seq<char>, is_away: bool) -> (
        SessionView,
        Seq<ActionView>,
    ) {
        let next = SessionView { away: marked_away(self.away, nick, is_away), ..self };
        (next, next.show_all_names(self.members.holding(nick)))
    }

    /// The server offers, grants or withdraws capabilities. What is offered and wanted is
    /// asked for.
    pub open spec fn on_cap(
        self,
        sub: CapKind,
        first: Option<Seq<char>>,
        second: Option<Seq<char>>,
    ) -> (SessionView, Seq<ActionView>) {
        let list = last_param(first, second).unwrap_or(Seq::empty());
        match sub {
            CapKind::New => {
                let wanted = to_request(offered_names(list), false);
                if wanted.len() > 0 {
                    (self, seq![ActionView::Send(RequestView::Capabilities(wanted))])
                } else {
                    (self, Seq::empty())
                }
            },
            CapKind::Ack => (
                SessionView { granted: acknowledged(self.granted, words_of(list)), ..self },
                Seq::empty(),
            ),
            CapKind::Del => (
                SessionView {
                    granted: self.granted.filter(
                        |name: Seq<char>| !offered_names(list).contains(name),
                    ),
                    ..self
                },
                Seq::empty(),
            ),
            _ => (self, Seq::empty()),
        }
    }

    /// What a message changes of what the session knows of channels, of people and of the
    /// server, and what of it is shown or sent.
    pub open spec fn noted(self, our_nick: Seq<char>, message: Message) -> (
        SessionView,
        Seq<ActionView>,
    ) {
        let sender = sender_of(message);
        match message.command {
            Command::Reply { code, args } => if code == 353 {
                (self.on_names(texts(args@)), Seq::empty())
            } else if code == 366 {
                self.on_names_end(texts(args@))
            } else if code == 5 && args@.len() > 0 {
                (self.with_tokens(texts(args@).skip(1)), Seq::empty())
            } else if code == 315 {
                self.on_who_end(texts(args@))
            } else {
                (self, Seq::empty())
            },
            Command::Join { channel, .. } => self.on_join(our_nick, sender, channel@),
            Command::Part { channel, .. } => self.on_leave(channel@, sender),
            Command::Kick { channel, nick, .. } => self.on_leave(channel@, nick@),
            Command::Quit { .. } => self.on_quit(sender),
            Command::Nick { nick } => self.on_nick(sender, nick@),
            Command::Away { reason } => self.on_away(sender, reason is Some),
            Command::Cap { sub, first, second } => self.on_cap(
                sub,
                optional(first),
                optional(second),
            ),
            Command::Raw { name, args } => (self.on_raw(name@, texts(args@)), Seq::empty()),
            _ => (self, Seq::empty()),
        }
    }

    /// What is shown and sent of the CTCP request `ctcp`: it is shown among the lines of the
    /// server, and `body`, where there is an answer, is sent to whom it comes from.
    pub open spec fn answered(
        self,
        sender: Seq<char>,
        ctcp: Seq<char>,
        body: Option<Seq<char>>,
    ) -> Seq<ActionView> {
        let line = self.show_line(SERVER_TARGET@, "CTCP "@ + ctcp + " from "@ + sender);
        match body {
            Some(text) => seq![
                ActionView::Send(RequestView::Notice { target: sender, text: delimited(text) }),
                line,
            ],
            None => seq![line],
        }
    }

    /// What is shown and sent of something said in private or in a channel. A CTCP request
    /// is answered, and shown among the lines of the server.
    pub open spec fn on_privmsg(
        self,
        our_nick: Seq<char>,
        sender: Seq<char>,
        target: Seq<char>,
        text: Seq<char>,
        now: Seq<char>,
    ) -> Seq<ActionView> {
        if is_ctcp(text) {
            self.answered(sender, ctcp_body(text), answer_to(ctcp_body(text), now))
        } else {
            seq![
                self.show_line(
                    if target == our_nick {
                        sender
                    } else {
                        target
                    },
                    "<"@ + sender + "> "@ + text,
                ),
            ]
        }
    }

    /// What is shown of a notice: one that is not for a channel among the lines of the server.
    pub open spec fn on_notice(self, sender: Seq<char>, target: Seq<char>, text: Seq<char>) -> Seq<
        ActionView,
    > {
        seq![
            self.show_line(
                if self.is_channel(target) {
                    target
                } else {
                    SERVER_TARGET@
                },
                "-"@ + sender + "- "@ + text,
            ),
        ]
    }

    /// The line by which a message is shown: where, and what. Not for what is said, which is
    /// answered too.
    pub open spec fn line_of(self, message: Message) -> (Seq<char>, Seq<char>) {
        let sender = sender_of(message);
        match message.command {
            Command::Join { channel, account, realname } => (
                channel@,
                join_text(message, channel@, account, realname),
            ),
            Command::Part { channel, reason } => (
                channel@,
                sender + " left "@ + channel@ + reason_text(reason),
            ),
            Command::Kick { channel, nick, reason } => (
                channel@,
                sender + " kicked "@ + nick@ + reason_text(reason),
            ),
            Command::Quit { reason } => (SERVER_TARGET@, sender + " quit"@ + reason_text(reason)),
            Command::Nick { nick } => (SERVER_TARGET@, sender + " is now known as "@ + nick@),
            Command::Reply { code, args } => if code == 332 {
                (
                    if args@.len() > 1 {
                        args@[1]@
                    } else {
                        SERVER_TARGET@
                    },
                    "topic: "@ + if args@.len() > 2 {
                        args@[2]@
                    } else {
                        Seq::empty()
                    },
                )
            } else {
                (SERVER_TARGET@, join(texts(args@), " "@))
            },
            _ => (SERVER_TARGET@, raw_text(message)),
        }
    }

    /// Whether a reply is a line of the list of members, which is shown as a list alone.
    pub open spec fn is_silent(self, message: Message) -> bool {
        message.command matches Command::Reply { code, .. } && (code == 353 || code == 366)
    }

    /// The batch to which a line belongs: its place among those that are not complete.
    pub open spec fn batch_of(self, message: Message) -> Option<int> {
        match tag_of(message, "batch"@) {
            Some(reference) => if batch_at(self.batches, reference) < self.batches.len() {
                Some(batch_at(self.batches, reference))
            } else {
                None
            },
            None => None,
        }
    }

    /// One more line of a batch. It is put behind the others on a line of its own, or right
    /// behind them where it says so.
    pub open spec fn with_line(
        self,
        at: int,
        message: Message,
        target: Seq<char>,
        text: Seq<char>,
        notice: bool,
    ) -> SessionView {
        let whole = match self.batches[at].said {
            Some(said) => if tag_of(message, "draft/multiline-concat"@) is Some {
                said.text + text
            } else {
                said.text + "\n"@ + text
            },
            None => text,
        };
        SessionView {
            batches: self.batches.update(
                at,
                BatchView {
                    reference: self.batches[at].reference,
                    said: Some(
                        SaidView { sender: sender_of(message), target, text: whole, notice },
                    ),
                },
            ),
            ..self
        }
    }

    /// A batch is opened or closed. A batch of lines that make one message is not shown
    /// until it is complete, and then as that message.
    pub open spec fn on_batch(
        self,
        our_nick: Seq<char>,
        message: Message,
        reference: Seq<char>,
        kind: Option<Seq<char>>,
        now: Seq<char>,
    ) -> (SessionView, Seq<ActionView>) {
        let name = reference.skip(1);
        let at = batch_at(self.batches, name);
        if reference.len() > 0 && reference[0] == '+' && is_multiline(kind) {
            (
                SessionView {
                    batches: self.batches.push(BatchView { reference: name, said: None }),
                    ..self
                },
                Seq::empty(),
            )
        } else if reference.len() > 0 && reference[0] == '-' && at < self.batches.len() {
            let next = SessionView { batches: self.batches.remove(at), ..self };
            (
                next,
                match self.batches[at].said {
                    Some(said) => if said.notice {
                        next.on_notice(said.sender, said.target, said.text)
                    } else {
                        next.on_privmsg(our_nick, said.sender, said.target, said.text, now)
                    },
                    None => Seq::empty(),
                },
            )
        } else {
            (self, seq![self.show_line(SERVER_TARGET@, raw_text(message))])
        }
    }

    /// The CTCP request that is complete with `message`, and whom it comes from.
    pub open spec fn request_in(self, message: Message) -> Option<(Seq<char>, Seq<char>)> {
        match message.command {
            Command::Privmsg { text, .. } => if self.batch_of(message) is None && is_ctcp(text@) {
                Some((sender_of(message), ctcp_body(text@)))
            } else {
                None
            },
            Command::Batch { reference, .. } => {
                let at = batch_at(self.batches, reference@.skip(1));
                if reference@.len() > 0 && reference@[0] == '-' && at < self.batches.len() {
                    match self.batches[at].said {
                        Some(said) if !said.notice && is_ctcp(said.text) => Some(
                            (said.sender, ctcp_body(said.text)),
                        ),
                        _ => None,
                    }
                } else {
                    None
                }
            },
            _ => None,
        }
    }

    /// Where a CTCP request in ASCII characters is complete with `message`, all that is done
    /// is to show it and to answer it by its capital letters.
    pub open spec fn answers_ascii(
        self,
        message: Message,
        now: Seq<char>,
        out: Seq<ActionView>,
    ) -> bool {
        match self.request_in(message) {
            Some((sender, ctcp)) => has_ascii_command(ctcp) ==> out == self.answered(
                sender,
                ctcp,
                ascii_answer_to(ctcp, now),
            ),
            None => true,
        }
    }

    /// What becomes of the session by `message`, and what is shown and sent. `now` is the time
    /// that is told to those who ask for it.
    pub open spec fn after(self, our_nick: Seq<char>, message: Message, now: Seq<char>) -> (
        SessionView,
        Seq<ActionView>,
    ) {
        let sender = sender_of(message);
        match message.command {
            Command::Privmsg { target, text } => match self.batch_of(message) {
                Some(at) => (self.with_line(at, message, target@, text@, false), Seq::empty()),
                None => (self, self.on_privmsg(our_nick, sender, target@, text@, now)),
            },
            Command::Notice { target, text } => match self.batch_of(message) {
                Some(at) => (self.with_line(at, message, target@, text@, true), Seq::empty()),
                None => (self, self.on_notice(sender, target@, text@)),
            },
            Command::Batch { reference, kind } => self.on_batch(
                our_nick,
                message,
                reference@,
                optional(kind),
                now,
            ),
            _ => {
                let (next, done) = self.noted(our_nick, message);
                if self.is_silent(message) {
                    (next, done)
                } else {
                    let (target, text) = next.line_of(message);
                    (next, done.push(next.show_line(target, text)))
                }
            },
        }
    }
}

} // verus!
