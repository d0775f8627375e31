//! What holds of a session, whatever messages the server sends.

use crate::caps::{
    law_offered_is_requested, law_only_offered_is_requested, name_of, offered_names, wanted_always,
};
use crate::ctcp::{answer_to, law_delimiters_only_at_the_ends, DELIMITER};
use crate::events::{ActionView, IrcEventView, RequestView, SERVER_TARGET};
use crate::message::{optional, raw_text, sender_of, CapKind, Command, Message};
use crate::negotiate::last_param;
use crate::outgoing::{say, Typist};
use crate::roster::{lemma_set_wf, other_than, removed, renamed, RosterView};
use crate::session_model::{
    batch_at, ctcp_body, entry_nick, is_ctcp, is_multiline, lemma_batch_at, listed_nicks, tag_of,
    BatchView, SaidView, SessionView,
};
use crate::sorting::{
    lemma_push_contains, lemma_sorted_set, same_texts, sorted_set, strictly_increasing,
};
use crate::text::{join, lemma_drop_leading, lemma_first_at, lemma_split_joined, texts};
use vstd::prelude::*;

verus! {

/// A filter that nothing fails keeps everything.
proof fn lemma_filter_keeps_all(list: Seq<Seq<char>>, keep: spec_fn(Seq<char>) -> bool)
    requires
        forall|i: int| 0 <= i < list.len() ==> keep(#[trigger] list[i]),
    ensures
        list.filter(keep) == list,
    decreases list.len(),
{
    reveal(Seq::filter);
    if list.len() > 0 {
        let short = list.drop_last();
        assert forall|i: int| 0 <= i < short.len() implies keep(#[trigger] short[i]) by {
            assert(keep(list[i]));
        }
        lemma_filter_keeps_all(short, keep);
        assert(keep(list[list.len() - 1]));
        assert(short.push(list.last()) =~= list);
    }
}

/// What a filter keeps comes from the list.
proof fn lemma_filter_from(list: Seq<Seq<char>>, keep: spec_fn(Seq<char>) -> bool, x: Seq<char>)
    ensures
        list.filter(keep).contains(x) <==> list.contains(x) && keep(x),
    decreases list.len(),
{
    reveal(Seq::filter);
    if list.len() > 0 {
        let short = list.drop_last();
        lemma_filter_from(short, keep, x);
        assert(list =~= short.push(list.last()));
        lemma_push_contains(short, list.last(), x);
        lemma_push_contains(short.filter(keep), list.last(), x);
    }
}

/// Who is left when `nick` is removed.
proof fn lemma_removed(list: Seq<Seq<char>>, nick: Seq<char>, x: Seq<char>)
    ensures
        removed(list, nick).contains(x) <==> list.contains(x) && x != nick,
        !list.contains(nick) ==> removed(list, nick) == list,
{
    let keep = other_than(nick);
    lemma_filter_from(list, keep, x);
    if !list.contains(nick) {
        assert forall|i: int| 0 <= i < list.len() implies keep(#[trigger] list[i]) by {
            assert(list.contains(list[i]));
        }
        lemma_filter_keeps_all(list, keep);
    }
}

/// Who is there when `nick` goes by `new_nick`.
proof fn lemma_renamed(list: Seq<Seq<char>>, nick: Seq<char>, new_nick: Seq<char>, x: Seq<char>)
    ensures
        renamed(list, nick, new_nick).contains(x) <==> (list.contains(x) && x != nick) || (
        list.contains(nick) && x == new_nick),
        !list.contains(nick) ==> renamed(list, nick, new_nick) == list,
{
    let out = renamed(list, nick, new_nick);
    if out.contains(x) {
        let i = choose|i: int| 0 <= i < out.len() && out[i] == x;
        assert(list.contains(list[i]));
    }
    if list.contains(x) && x != nick {
        let i = choose|i: int| 0 <= i < list.len() && list[i] == x;
        assert(out[i] == x);
    }
    if list.contains(nick) && x == new_nick {
        let i = choose|i: int| 0 <= i < list.len() && list[i] == nick;
        assert(out[i] == x);
    }
    if !list.contains(nick) {
        assert forall|i: int| 0 <= i < list.len() implies out[i] == list[i] by {
            assert(list.contains(list[i]));
        }
        assert(out =~= list);
    }
}

/// A channel whose list holds `nick` is among those found.
proof fn lemma_holding(roster: RosterView, channel: Seq<char>, nick: Seq<char>)
    requires
        roster.wf(),
    ensures
        roster.holding(nick).contains(channel) <==> roster.get(channel).contains(nick),
{
    let keep = |name: Seq<char>| roster.get(name).contains(nick);
    assert(roster.holding(nick) == roster.order.filter(keep));
    lemma_filter_from(roster.order, keep, channel);
    assert(roster.order.contains(channel) <==> roster.lists.contains_key(channel));
}

/// Of each channel of a list the members are shown.
proof fn lemma_all_shown(session: SessionView, channels: Seq<Seq<char>>, channel: Seq<char>)
    requires
        channels.contains(channel),
    ensures
        session.show_all_names(channels).contains(session.show_names(channel)),
{
    let i = choose|i: int| 0 <= i < channels.len() && channels[i] == channel;
    assert(session.show_all_names(channels)[i] == session.show_names(channel));
}

/// What the server supports says nothing of channels and people.
proof fn lemma_tokens(session: SessionView, tokens: Seq<Seq<char>>)
    ensures
        session.with_tokens(tokens) == (SessionView {
            channel_types: session.with_tokens(tokens).channel_types,
            ranks: session.with_tokens(tokens).ranks,
            whox: session.with_tokens(tokens).whox,
            ..session
        }),
    decreases tokens.len(),
{
    if tokens.len() > 0 {
        lemma_tokens(session, tokens.drop_last());
    }
}

/// Whenever the members of a channel change, they are shown as they are then. So a list that
/// mirrors what is shown is right at any time.
pub proof fn law_every_change_is_shown(
    session: SessionView,
    our_nick: Seq<char>,
    message: Message,
    now: Seq<char>,
    channel: Seq<char>,
)
    requires
        session.members.wf(),
        session.after(our_nick, message, now).0.members.get(channel) != session.members.get(
            channel,
        ),
    ensures
        session.after(our_nick, message, now).1.contains(
            session.after(our_nick, message, now).0.show_names(channel),
        ),
{
    let (next, out) = session.after(our_nick, message, now);
    let sender = sender_of(message);
    let done = session.noted(our_nick, message).1;
    match message.command {
        Command::Reply { code, args } => {
            lemma_tokens(session, texts(args@).skip(1));
            assert(done[0] == next.show_names(channel));
        },
        Command::Join { channel: joined, .. } => {
            assert(done[0] == next.show_names(channel));
        },
        Command::Part { channel: left, .. } => {
            assert(done[0] == next.show_names(channel));
        },
        Command::Kick { channel: left, nick, .. } => {
            assert(done[0] == next.show_names(channel));
        },
        Command::Quit { .. } => {
            lemma_removed(session.members.get(channel), sender, sender);
            lemma_holding(session.members, channel, sender);
            lemma_all_shown(next, session.members.holding(sender), channel);
        },
        Command::Nick { nick } => {
            lemma_renamed(session.members.get(channel), sender, nick@, sender);
            lemma_holding(session.members, channel, sender);
            lemma_all_shown(next, session.members.holding(sender), channel);
        },
        _ => {},
    }
    let i = choose|i: int| 0 <= i < done.len() && done[i] == next.show_names(channel);
    assert(done.contains(next.show_names(channel)));
    assert(out[i] == next.show_names(channel));
}

/// What is shown of a channel's members is always how they are once the message is taken in.
pub proof fn law_shown_members_are_current(
    session: SessionView,
    our_nick: Seq<char>,
    message: Message,
    now: Seq<char>,
    i: int,
)
    requires
        0 <= i < session.after(our_nick, message, now).1.len(),
        session.after(our_nick, message, now).1[i] matches ActionView::Show(
            IrcEventView::Names { .. },
        ),
    ensures
        session.after(our_nick, message, now).1[i] matches ActionView::Show(
            IrcEventView::Names { channel, .. },
        ) && session.after(our_nick, message, now).1[i] == session.after(
            our_nick,
            message,
            now,
        ).0.show_names(channel),
{
}

/// Who quits is in no channel any more, and nobody else is touched.
pub proof fn law_quitting_leaves_every_channel(
    session: SessionView,
    our_nick: Seq<char>,
    message: Message,
    now: Seq<char>,
    channel: Seq<char>,
    nick: Seq<char>,
)
    requires
        message.command is Quit,
    ensures
        session.after(our_nick, message, now).0.members.get(channel).contains(nick) <==> (
        session.members.get(channel).contains(nick) && nick != sender_of(message)),
{
    lemma_removed(session.members.get(channel), sender_of(message), nick);
}

/// Who leaves a channel, or is made to, is not in it any more; nobody else is touched, and no
/// other channel is.
pub proof fn law_leaving_touches_one_channel(
    session: SessionView,
    our_nick: Seq<char>,
    message: Message,
    now: Seq<char>,
    channel: Seq<char>,
    nick: Seq<char>,
)
    requires
        message.command is Part || message.command is Kick,
    ensures
        ({
            let (left, who) = match message.command {
                Command::Kick { channel, nick, .. } => (channel@, nick@),
                Command::Part { channel, .. } => (channel@, sender_of(message)),
                _ => (Seq::empty(), Seq::empty()),
            };
            session.after(our_nick, message, now).0.members.get(channel).contains(nick) <==> (
            session.members.get(channel).contains(nick) && !(channel == left && nick == who))
        }),
{
    let who = match message.command {
        Command::Kick { nick, .. } => nick@,
        _ => sender_of(message),
    };
    lemma_removed(session.members.get(channel), who, nick);
}

/// Who takes another nickname is by that name wherever they were, and nowhere by the old one;
/// nobody else is touched.
pub proof fn law_renaming_follows_everywhere(
    session: SessionView,
    our_nick: Seq<char>,
    message: Message,
    now: Seq<char>,
    channel: Seq<char>,
    nick: Seq<char>,
)
    requires
        message.command is Nick,
    ensures
        message.command matches Command::Nick { nick: new_nick } && {
            let was = session.members.get(channel);
            let is = session.after(our_nick, message, now).0.members.get(channel);
            &&& is.contains(nick) <==> (was.contains(nick) && nick != sender_of(message)) || (
            was.contains(sender_of(message)) && nick == new_nick@)
            &&& is.len() == was.len()
        },
{
    if let Command::Nick { nick: new_nick } = message.command {
        lemma_renamed(session.members.get(channel), sender_of(message), new_nick@, nick);
    }
}

/// Who joins a channel is in it, unless it is the client itself; nobody else is touched.
pub proof fn law_joining_adds_one(
    session: SessionView,
    our_nick: Seq<char>,
    message: Message,
    now: Seq<char>,
    channel: Seq<char>,
    nick: Seq<char>,
)
    requires
        message.command is Join,
    ensures
        message.command matches Command::Join { channel: joined, .. } && (session.after(
            our_nick,
            message,
            now,
        ).0.members.get(channel).contains(nick) <==> session.members.get(channel).contains(nick)
            || (channel == joined@ && nick == sender_of(message) && nick != our_nick)),
{
    lemma_push_contains(session.members.get(channel), sender_of(message), nick);
}

/// A complete list of members replaces what was known of the channel. It is in order, holds
/// everybody who was listed, and nobody twice.
pub proof fn law_complete_list_replaces(
    session: SessionView,
    our_nick: Seq<char>,
    message: Message,
    now: Seq<char>,
)
    requires
        message.command matches Command::Reply { code, args } && code == 366 && args@.len() > 1,
    ensures
        message.command matches Command::Reply { code, args } && {
            let next = session.after(our_nick, message, now).0;
            let is = next.members.get(args@[1]@);
            &&& strictly_increasing(is)
            &&& same_texts(is, session.names.get(args@[1]@))
            &&& next.names.get(args@[1]@) == Seq::<Seq<char>>::empty()
        },
{
    if let Command::Reply { code, args } = message.command {
        lemma_sorted_set(session.names.get(args@[1]@));
        assert(texts(args@)[1] == args@[1]@);
    }
}

/// `message` lists members of `channel`.
pub open spec fn lists_members(message: Message, channel: Seq<char>, list: Seq<char>) -> bool {
    message.command matches Command::Reply { code, args } && code == 353 && args@.len() > 2
        && args@[2]@ == channel && args@.last()@ == list
}

/// `message` tells that the members of `channel` were all listed.
pub open spec fn ends_members(message: Message, channel: Seq<char>) -> bool {
    message.command matches Command::Reply { code, args } && code == 366 && args@.len() > 1
        && args@[1]@ == channel
}

/// The members that come in several lists are those of all of them: once the end is told, the
/// channel has those of the last list and those listed before.
pub proof fn law_lists_add_up(
    session: SessionView,
    our_nick: Seq<char>,
    lists: Message,
    ends: Message,
    channel: Seq<char>,
    list: Seq<char>,
    now: Seq<char>,
)
    requires
        lists_members(lists, channel, list),
        ends_members(ends, channel),
    ensures
        ({
            let (listed, shown) = session.after(our_nick, lists, now);
            let ended = listed.after(our_nick, ends, now).0;
            &&& shown == Seq::<ActionView>::empty()
            &&& ended.members.get(channel) == sorted_set(
                session.names.get(channel) + listed_nicks(list, session.ranks),
            )
        }),
{
    if let Command::Reply { code, args } = lists.command {
        assert(texts(args@)[2] == args@[2]@);
        assert(texts(args@).last() == args@.last()@);
    }
    if let Command::Reply { code, args } = ends.command {
        assert(texts(args@)[1] == args@[1]@);
    }
}

/// Whether an action shows a line.
pub open spec fn is_line(action: ActionView) -> bool {
    action matches ActionView::Show(IrcEventView::Line { .. })
}

/// Whether a message is shown by a line: all are but lists of members, and the beginnings and
/// the single lines of batches that make one message. Such a batch is shown by a line when it
/// is closed, where any of its lines came.
pub open spec fn has_line(session: SessionView, message: Message) -> bool {
    match message.command {
        Command::Privmsg { .. } => session.batch_of(message) is None,
        Command::Notice { .. } => session.batch_of(message) is None,
        Command::Batch { reference, kind } => {
            let at = batch_at(session.batches, reference@.skip(1));
            if reference@.len() > 0 && reference@[0] == '+' && is_multiline(optional(kind)) {
                false
            } else if reference@.len() > 0 && reference@[0] == '-' && at
                < session.batches.len() {
                session.batches[at].said is Some
            } else {
                true
            }
        },
        Command::Reply { .. } => !session.is_silent(message),
        _ => true,
    }
}

/// A message that is shown by a line is shown by exactly one, the last thing that is done for
/// it; any other is shown by none.
pub proof fn law_one_line_for_a_message(
    session: SessionView,
    our_nick: Seq<char>,
    message: Message,
    now: Seq<char>,
)
    ensures
        ({
            let out = session.after(our_nick, message, now).1;
            &&& has_line(session, message) ==> out.len() > 0 && is_line(out.last())
            &&& !has_line(session, message) ==> forall|i: int|
                0 <= i < out.len() ==> !is_line(#[trigger] out[i])
            &&& forall|i: int| 0 <= i < out.len() - 1 ==> !is_line(#[trigger] out[i])
        }),
{
}

/// Whatever is shown is shown of the server that the session is with.
pub proof fn law_everything_is_of_the_server(
    session: SessionView,
    our_nick: Seq<char>,
    message: Message,
    now: Seq<char>,
    i: int,
)
    requires
        0 <= i < session.after(our_nick, message, now).1.len(),
    ensures
        session.after(our_nick, message, now).0.server == session.server,
        match session.after(our_nick, message, now).1[i] {
            ActionView::Show(IrcEventView::Line { server, .. }) => server == session.server,
            ActionView::Show(IrcEventView::Names { server, .. }) => server == session.server,
            ActionView::Send(_) => true,
        },
{
    if let Command::Reply { code, args } = message.command {
        lemma_tokens(session, texts(args@).skip(1));
    }
}

/// What is not chat opens no buffer of its own: a CTCP request and a notice that is not for a
/// channel are shown among the lines of the server.
pub proof fn law_chatter_goes_to_the_server(
    session: SessionView,
    our_nick: Seq<char>,
    message: Message,
    now: Seq<char>,
)
    requires
        session.batch_of(message) is None,
        match message.command {
            Command::Privmsg { text, .. } => is_ctcp(text@),
            Command::Notice { target, .. } => !session.is_channel(target@),
            _ => false,
        },
    ensures
        session.after(our_nick, message, now).1.last() matches ActionView::Show(
            IrcEventView::Line { target, .. },
        ) && target == SERVER_TARGET@,
{
}

/// What is said to the client itself is shown where an answer to it would go: in the buffer of
/// whom it comes from. What is said anywhere else is shown there.
pub proof fn law_chat_is_shown_where_it_belongs(
    session: SessionView,
    our_nick: Seq<char>,
    message: Message,
    now: Seq<char>,
)
    requires
        session.batch_of(message) is None,
        message.command matches Command::Privmsg { text, .. } && !is_ctcp(text@),
    ensures
        message.command matches Command::Privmsg { target, text } && session.after(
            our_nick,
            message,
            now,
        ) == (
            session,
            seq![
                session.show_line(
                    if target@ == our_nick {
                        sender_of(message)
                    } else {
                        target@
                    },
                    "<"@ + sender_of(message) + "> "@ + text@,
                ),
            ],
        ),
{
}

/// Whatever is said, on one line or in a batch of them, all that is sent for it is at most one
/// notice; in its text a delimiter stands at either end and nowhere else. It goes to whom the
/// message comes from.
pub proof fn law_answers_are_safe(
    session: SessionView,
    our_nick: Seq<char>,
    message: Message,
    now: Seq<char>,
    i: int,
)
    requires
        message.command is Privmsg || message.command is Batch,
        0 <= i < session.after(our_nick, message, now).1.len(),
        session.after(our_nick, message, now).1[i] is Send,
    ensures
        i == 0,
        session.after(our_nick, message, now).1[i] matches ActionView::Send(
            RequestView::Notice { target, text },
        ) && {
            &&& message.command is Privmsg ==> target == sender_of(message)
            &&& text.len() >= 2
            &&& forall|k: int|
                0 <= k < text.len() ==> (#[trigger] text[k] == DELIMITER <==> k == 0 || k
                    == text.len() - 1)
        },
{
    let text = match message.command {
        Command::Privmsg { text, .. } => text@,
        Command::Batch { reference, .. } => session.batches[batch_at(
            session.batches,
            reference@.skip(1),
        )].said->0.text,
        _ => Seq::empty(),
    };
    if let Some(body) = answer_to(ctcp_body(text), now) {
        law_delimiters_only_at_the_ends(body);
    }
}

/// A notice is never answered.
pub proof fn law_notices_are_not_answered(
    session: SessionView,
    our_nick: Seq<char>,
    message: Message,
    now: Seq<char>,
    i: int,
)
    requires
        message.command is Notice,
        0 <= i < session.after(our_nick, message, now).1.len(),
    ensures
        session.after(our_nick, message, now).1[i] is Show,
{
}

/// When the client itself joins a channel, its recent history is asked for on networks that
/// have it, and on no others; when somebody else joins, nothing is.
pub proof fn law_joining_asks_for_history(
    session: SessionView,
    our_nick: Seq<char>,
    message: Message,
    now: Seq<char>,
)
    requires
        message.command is Join,
    ensures
        message.command matches Command::Join { channel, .. } && {
            let out = session.after(our_nick, message, now).1;
            let asks = sender_of(message) == our_nick && session.granted.contains(
                "draft/chathistory"@,
            );
            &&& asks ==> out[0] == ActionView::Send(
                RequestView::Raw {
                    name: "CHATHISTORY"@,
                    args: seq!["LATEST"@, channel@, "*"@, "50"@],
                },
            )
            &&& forall|i: int|
                0 <= i < out.len() && (#[trigger] out[i]) is Send ==> asks && i == 0
        },
{
}

/// Who goes away or comes back is known as such in every channel that they are in, and that is
/// shown; nobody else is touched.
pub proof fn law_absence_is_followed(
    session: SessionView,
    our_nick: Seq<char>,
    message: Message,
    now: Seq<char>,
    channel: Seq<char>,
    nick: Seq<char>,
)
    requires
        session.members.wf(),
        message.command is Away,
    ensures
        message.command matches Command::Away { reason } && {
            let (next, out) = session.after(our_nick, message, now);
            &&& next.members == session.members
            &&& next.away_in(channel).contains(nick) <==> session.members.get(channel).contains(
                nick,
            ) && if nick == sender_of(message) {
                reason is Some
            } else {
                session.away.contains(nick)
            }
            &&& session.members.get(channel).contains(sender_of(message)) ==> out.contains(
                next.show_names(channel),
            )
        },
{
    if let Command::Away { reason } = message.command {
        let sender = sender_of(message);
        let (next, out) = session.after(our_nick, message, now);
        let done = session.noted(our_nick, message).1;
        lemma_removed(session.away, sender, nick);
        lemma_push_contains(removed(session.away, sender), sender, nick);
        lemma_filter_from(
            next.members.get(channel),
            |n: Seq<char>| next.away.contains(n),
            nick,
        );
        if session.members.get(channel).contains(sender) {
            lemma_holding(session.members, channel, sender);
            lemma_all_shown(next, session.members.holding(sender), channel);
            let i = choose|i: int| 0 <= i < done.len() && done[i] == next.show_names(channel);
            assert(out[i] == next.show_names(channel));
        }
    }
}

/// The server is asked who is away only where it can tell, and where it also tells of changes:
/// else the answer would not stay true. Then it is asked of every channel whose members were
/// listed.
pub proof fn law_absence_is_asked_where_it_is_followed(
    session: SessionView,
    our_nick: Seq<char>,
    message: Message,
    now: Seq<char>,
    channel: Seq<char>,
)
    requires
        ends_members(message, channel),
    ensures
        ({
            let out = session.after(our_nick, message, now).1;
            let asks = session.whox && session.granted.contains("away-notify"@);
            &&& asks ==> out.len() == 2 && out[1] == ActionView::Send(
                RequestView::Raw { name: "WHO"@, args: seq![channel, "%nf"@] },
            )
            &&& !asks ==> out.len() == 1
            &&& out[0] is Show
            &&& session.after(our_nick, message, now).0.asked == if asks {
                session.asked.push(channel)
            } else {
                session.asked
            }
        }),
{
    if let Command::Reply { code, args } = message.command {
        assert(texts(args@)[1] == args@[1]@);
    }
}

/// As long as no answer is due on who is away, no reply marks anybody, nor does one that does
/// not say whether somebody is here or gone: it changes nothing and is shown as it came.
pub proof fn law_unasked_replies_are_only_shown(
    session: SessionView,
    our_nick: Seq<char>,
    message: Message,
    now: Seq<char>,
)
    requires
        message.command matches Command::Raw { name, args } && (session.asked.len() == 0 || name@
            != "354"@ || args@.len() != 3 || args@[2]@.len() == 0 || (args@[2]@[0] != 'H'
            && args@[2]@[0] != 'G')),
    ensures
        session.after(our_nick, message, now) == (
            session,
            seq![session.show_line(SERVER_TARGET@, raw_text(message))],
        ),
{
    if let Command::Raw { name, args } = message.command {
        if args@.len() == 3 {
            assert(texts(args@)[2] == args@[2]@);
        }
        let out = session.after(our_nick, message, now).1;
        assert(out =~= seq![session.show_line(SERVER_TARGET@, raw_text(message))]);
    }
}

/// The end of the replies on who is away shows the members of a channel where the session has
/// asked of it, and is then no longer waited for. Any other is a line alone.
pub proof fn law_answers_end_where_asked(
    session: SessionView,
    our_nick: Seq<char>,
    message: Message,
    now: Seq<char>,
)
    requires
        message.command matches Command::Reply { code, .. } && code == 315,
    ensures
        message.command matches Command::Reply { args, .. } && {
            let (next, out) = session.after(our_nick, message, now);
            let line = session.show_line(SERVER_TARGET@, join(texts(args@), " "@));
            if args@.len() > 1 && session.asked.contains(args@[1]@) {
                &&& next.asked == session.asked.remove_value(args@[1]@)
                &&& out == seq![next.show_names(args@[1]@), line]
            } else {
                next == session && out == seq![line]
            }
        },
{
    if let Command::Reply { code, args } = message.command {
        let (next, out) = session.after(our_nick, message, now);
        let line = session.show_line(SERVER_TARGET@, join(texts(args@), " "@));
        if args@.len() > 1 {
            assert(texts(args@)[1] == args@[1]@);
        }
        if args@.len() > 1 && session.asked.contains(args@[1]@) {
            assert(out =~= seq![next.show_names(args@[1]@), line]);
        } else {
            assert(out =~= seq![line]);
        }
    }
}

/// What the user says is shown once and alike, whether the client shows it or the server
/// sends it back. Not so of what the client says to itself, and of CTCP.
pub proof fn law_echo_is_shown_alike(
    session: SessionView,
    typist: Typist,
    message: Message,
    now: Seq<char>,
)
    requires
        session.server == typist.server@,
        session.batch_of(message) is None,
        sender_of(message) == typist.nick@,
        message.command matches Command::Privmsg { target, text } && target@ != typist.nick@
            && !is_ctcp(text@),
    ensures
        message.command matches Command::Privmsg { target, text } && {
            let sent_back = session.after(typist.nick@, message, now).1;
            let said = say(typist, target@, text@);
            let line = IrcEventView::Line {
                server: typist.server@,
                target: target@,
                text: "<"@ + typist.nick@ + "> "@ + text@,
            };
            &&& said.request == Some(RequestView::Privmsg { target: target@, text: text@ })
            &&& sent_back == seq![ActionView::Show(line)]
            &&& said.echo == if typist.server_echoes {
                None
            } else {
                Some(line)
            }
        },
{
}

/// Every channel keeps its one list of members, whatever the server sends.
pub proof fn law_members_stay_in_order(
    session: SessionView,
    our_nick: Seq<char>,
    message: Message,
    now: Seq<char>,
)
    requires
        session.members.wf(),
    ensures
        session.after(our_nick, message, now).0.members.wf(),
{
    let sender = sender_of(message);
    match message.command {
        Command::Reply { code, args } => {
            lemma_tokens(session, texts(args@).skip(1));
            if code == 366 && args@.len() > 1 {
                let channel = texts(args@)[1];
                lemma_set_wf(session.members, channel, sorted_set(session.names.get(channel)));
            }
        },
        Command::Join { channel, .. } => {
            lemma_set_wf(session.members, channel@, session.members.get(channel@).push(sender));
        },
        Command::Part { channel, .. } => {
            lemma_set_wf(
                session.members,
                channel@,
                removed(session.members.get(channel@), sender),
            );
        },
        Command::Kick { channel, nick, .. } => {
            lemma_set_wf(
                session.members,
                channel@,
                removed(session.members.get(channel@), nick@),
            );
        },
        Command::Quit { .. } => {
            let next = session.on_quit(sender).0.members;
            assert forall|n: Seq<char>| #[trigger]
                next.order.contains(n) <==> next.lists.contains_key(n) by {
                assert(session.members.order.contains(n) <==> session.members.lists.contains_key(
                    n,
                ));
            }
        },
        Command::Nick { nick } => {
            let next = session.on_nick(sender, nick@).0.members;
            assert forall|n: Seq<char>| #[trigger]
                next.order.contains(n) <==> next.lists.contains_key(n) by {
                assert(session.members.order.contains(n) <==> session.members.lists.contains_key(
                    n,
                ));
            }
        },
        _ => {},
    }
}

/// What becomes of a session by `messages`, one after the other, and what is done for them.
pub open spec fn fed(
    session: SessionView,
    our_nick: Seq<char>,
    messages: Seq<Message>,
    now: Seq<char>,
) -> (SessionView, Seq<ActionView>)
    decreases messages.len(),
{
    if messages.len() == 0 {
        (session, Seq::empty())
    } else {
        let (before, done) = fed(session, our_nick, messages.drop_last(), now);
        let (next, more) = before.after(our_nick, messages.last(), now);
        (next, done + more)
    }
}

/// `message` opens a batch of lines that make one message.
pub open spec fn opens_lines(message: Message, reference: Seq<char>) -> bool {
    message.command matches Command::Batch { reference: given, kind } && given@ == seq!['+']
        + reference && (optional(kind) == Some("draft/multiline"@) || optional(kind) == Some(
        "DRAFT/MULTILINE"@,
    ))
}

/// `message` closes a batch.
pub open spec fn closes(message: Message, reference: Seq<char>) -> bool {
    message.command matches Command::Batch { reference: given, .. } && given@ == seq!['-']
        + reference
}

/// `message` is a line of a batch: of a notice, or of something said.
pub open spec fn is_line_of(
    message: Message,
    reference: Seq<char>,
    sender: Seq<char>,
    target: Seq<char>,
    text: Seq<char>,
    notice: bool,
) -> bool {
    &&& match message.command {
        Command::Privmsg { target: t, text: x } => !notice && t@ == target && x@ == text,
        Command::Notice { target: t, text: x } => notice && t@ == target && x@ == text,
        _ => false,
    }
    &&& sender_of(message) == sender
    &&& tag_of(message, "batch"@) == Some(reference)
}

/// What lines of a batch, of the texts `parts`, say together: each on a line of its own, or
/// right behind the one before where it says so.
pub open spec fn together(lines: Seq<Message>, parts: Seq<Seq<char>>) -> Seq<char>
    decreases parts.len(),
{
    if parts.len() == 0 {
        Seq::empty()
    } else if parts.len() == 1 {
        parts[0]
    } else if tag_of(lines.last(), "draft/multiline-concat"@) is Some {
        together(lines.drop_last(), parts.drop_last()) + parts.last()
    } else {
        together(lines.drop_last(), parts.drop_last()) + "\n"@ + parts.last()
    }
}

/// `session` with one more batch, of which `said` came so far.
spec fn holding_lines(
    session: SessionView,
    reference: Seq<char>,
    said: Option<SaidView>,
) -> SessionView {
    SessionView { batches: session.batches.push(BatchView { reference, said }), ..session }
}

/// What came of a message when `lines` came of it.
spec fn so_far(
    sender: Seq<char>,
    target: Seq<char>,
    notice: bool,
    lines: Seq<Message>,
    parts: Seq<Seq<char>>,
) -> Option<SaidView> {
    if parts.len() == 0 {
        None
    } else {
        Some(SaidView { sender, target, text: together(lines, parts), notice })
    }
}

/// The lines of a batch are kept until it is closed.
proof fn lemma_lines_are_kept(
    session: SessionView,
    our_nick: Seq<char>,
    lines: Seq<Message>,
    reference: Seq<char>,
    sender: Seq<char>,
    target: Seq<char>,
    parts: Seq<Seq<char>>,
    notice: bool,
    now: Seq<char>,
)
    requires
        forall|j: int|
            0 <= j < session.batches.len() ==> (#[trigger] session.batches[j]).reference
                != reference,
        lines.len() == parts.len(),
        forall|i: int|
            0 <= i < lines.len() ==> is_line_of(
                #[trigger] lines[i],
                reference,
                sender,
                target,
                parts[i],
                notice,
            ),
    ensures
        fed(holding_lines(session, reference, None), our_nick, lines, now) == (
            holding_lines(session, reference, so_far(sender, target, notice, lines, parts)),
            Seq::<ActionView>::empty(),
        ),
    decreases lines.len(),
{
    if lines.len() > 0 {
        let fewer = parts.drop_last();
        assert forall|i: int| 0 <= i < lines.drop_last().len() implies is_line_of(
            #[trigger] lines.drop_last()[i],
            reference,
            sender,
            target,
            fewer[i],
            notice,
        ) by {
            assert(is_line_of(lines[i], reference, sender, target, parts[i], notice));
        }
        lemma_lines_are_kept(
            session,
            our_nick,
            lines.drop_last(),
            reference,
            sender,
            target,
            fewer,
            notice,
            now,
        );
        let before = holding_lines(
            session,
            reference,
            so_far(sender, target, notice, lines.drop_last(), fewer),
        );
        assert(is_line_of(lines[lines.len() - 1], reference, sender, target, parts.last(), notice));
        let at = session.batches.len() as int;
        assert forall|j: int| 0 <= j < at implies (#[trigger] before.batches[j]).reference
            != reference by {
            assert(before.batches[j] == session.batches[j]);
        }
        lemma_batch_at(before.batches, reference, at);
        let next = before.after(our_nick, lines.last(), now).0;
        assert(next.batches =~= holding_lines(
            session,
            reference,
            so_far(sender, target, notice, lines, parts),
        ).batches);
        assert(Seq::<ActionView>::empty() + Seq::<ActionView>::empty()
            =~= Seq::<ActionView>::empty());
    }
}

/// A message that comes as a batch of lines is shown as one message: nothing is shown until
/// the batch is closed, and then what one message of all the lines would have shown. Nothing
/// else changes.
pub proof fn law_lines_make_one_message(
    session: SessionView,
    our_nick: Seq<char>,
    opening: Message,
    lines: Seq<Message>,
    closing: Message,
    reference: Seq<char>,
    sender: Seq<char>,
    target: Seq<char>,
    parts: Seq<Seq<char>>,
    notice: bool,
    now: Seq<char>,
)
    requires
        forall|j: int|
            0 <= j < session.batches.len() ==> (#[trigger] session.batches[j]).reference
                != reference,
        opens_lines(opening, reference),
        closes(closing, reference),
        lines.len() == parts.len(),
        lines.len() > 0,
        forall|i: int|
            0 <= i < lines.len() ==> is_line_of(
                #[trigger] lines[i],
                reference,
                sender,
                target,
                parts[i],
                notice,
            ),
    ensures
        ({
            let (opened, first) = session.after(our_nick, opening, now);
            let (held, shown) = fed(opened, our_nick, lines, now);
            let text = together(lines, parts);
            &&& first == Seq::<ActionView>::empty()
            &&& shown == Seq::<ActionView>::empty()
            &&& held.after(our_nick, closing, now) == (
                session,
                if notice {
                    session.on_notice(sender, target, text)
                } else {
                    session.on_privmsg(our_nick, sender, target, text, now)
                },
            )
        }),
{
    let opened = session.after(our_nick, opening, now).0;
    assert((seq!['+'] + reference).skip(1) =~= reference);
    assert((seq!['-'] + reference).skip(1) =~= reference);
    assert(opened =~= holding_lines(session, reference, None));
    lemma_lines_are_kept(session, our_nick, lines, reference, sender, target, parts, notice, now);
    let held = holding_lines(session, reference, so_far(sender, target, notice, lines, parts));
    let at = session.batches.len() as int;
    assert forall|j: int| 0 <= j < at implies (#[trigger] held.batches[j]).reference
        != reference by {
        assert(held.batches[j] == session.batches[j]);
    }
    lemma_batch_at(held.batches, reference, at);
    assert(held.batches.remove(at) =~= session.batches);
    assert(held.after(our_nick, closing, now).0 =~= session);
}

/// What comes between the lines of a batch does not touch it.
pub proof fn law_batches_are_left_alone(
    session: SessionView,
    our_nick: Seq<char>,
    message: Message,
    now: Seq<char>,
)
    requires
        !(message.command is Batch),
        session.batch_of(message) is None,
    ensures
        session.after(our_nick, message, now).0.batches == session.batches,
{
    if let Command::Reply { code, args } = message.command {
        lemma_tokens(session, texts(args@).skip(1));
    }
}

/// Of the capabilities that are offered in the course of a session, those that are wanted are
/// asked for.
pub proof fn law_late_offers_are_requested(
    session: SessionView,
    our_nick: Seq<char>,
    message: Message,
    now: Seq<char>,
    k: int,
)
    requires
        0 <= k < wanted_always().len(),
        message.command matches Command::Cap { sub: CapKind::New, first, second } && offered_names(
            last_param(optional(first), optional(second)).unwrap_or(Seq::empty()),
        ).contains(name_of(wanted_always()[k])),
    ensures
        session.after(our_nick, message, now).1[0] matches ActionView::Send(
            RequestView::Capabilities(list),
        ) && list.contains(wanted_always()[k]),
{
    if let Command::Cap { sub, first, second } = message.command {
        let list = last_param(optional(first), optional(second)).unwrap_or(Seq::empty());
        law_offered_is_requested(offered_names(list), false, k);
    }
}

/// No capabilities are asked for in the course of a session but those that are offered.
pub proof fn law_late_requests_are_offered(
    session: SessionView,
    our_nick: Seq<char>,
    message: Message,
    now: Seq<char>,
    i: int,
    k: int,
)
    requires
        0 <= i < session.after(our_nick, message, now).1.len(),
        session.after(our_nick, message, now).1[i] matches ActionView::Send(
            RequestView::Capabilities(list),
        ) && 0 <= k < list.len(),
    ensures
        session.after(our_nick, message, now).1[i] matches ActionView::Send(
            RequestView::Capabilities(list),
        ) && message.command matches Command::Cap { sub: CapKind::New, first, second }
            && offered_names(
            last_param(optional(first), optional(second)).unwrap_or(Seq::empty()),
        ).contains(name_of(list[k])),
{
    if let Command::Cap { sub, first, second } = message.command {
        let list = last_param(optional(first), optional(second)).unwrap_or(Seq::empty());
        law_only_offered_is_requested(offered_names(list), false, k);
    }
}

/// The server says what begins the name of a channel, and that is what decides.
pub proof fn law_server_names_channel_types(session: SessionView, types: Seq<char>)
    ensures
        session.with_token("CHANTYPES="@ + types) == (SessionView {
            channel_types: types,
            ..session
        }),
{
    reveal_strlit("CHANTYPES=");
    reveal_strlit("CHANTYPES");
    assert("CHANTYPES="@ =~= "CHANTYPES"@ + seq!['=']);
    lemma_split_joined("CHANTYPES"@, '=', types);
}

/// The server says which marks of rank there are: those behind the bracket that holds their
/// modes.
pub proof fn law_server_names_ranks(session: SessionView, modes: Seq<char>, marks: Seq<char>)
    requires
        !modes.contains(')'),
    ensures
        session.with_token("PREFIX="@ + ("("@ + modes + ")"@ + marks)) == (SessionView {
            ranks: marks,
            ..session
        }),
{
    reveal_strlit("PREFIX=");
    reveal_strlit("PREFIX");
    reveal_strlit("CHANTYPES");
    reveal_strlit("(");
    reveal_strlit(")");
    let value = "("@ + modes + ")"@ + marks;
    assert("PREFIX="@ =~= "PREFIX"@ + seq!['=']);
    lemma_split_joined("PREFIX"@, '=', value);
    assert("PREFIX"@.len() != "CHANTYPES"@.len());
    let head = "("@ + modes;
    assert(!head.contains(')')) by {
        if head.contains(')') {
            let i = choose|i: int| 0 <= i < head.len() && head[i] == ')';
            assert(modes[i - 1] == ')');
        }
    }
    assert(value =~= head + seq![')'] + marks);
    lemma_split_joined(head, ')', marks);
}

/// However many marks of rank stand before a nickname, and whatever user and host stand
/// behind it, the member is listed by the nickname.
pub proof fn law_entries_give_nicknames(
    ranks: Seq<char>,
    marks: Seq<char>,
    nick: Seq<char>,
    user_and_host: Seq<char>,
)
    requires
        nick.len() > 0,
        !ranks.contains(nick[0]),
        !nick.contains('!'),
        forall|i: int| 0 <= i < marks.len() ==> ranks.contains(#[trigger] marks[i]),
    ensures
        entry_nick(marks + nick, ranks) == nick,
        entry_nick(marks + (nick + seq!['!'] + user_and_host), ranks) == nick,
{
    let full = nick + seq!['!'] + user_and_host;
    let n = marks.len() as int;
    assert((marks + nick).skip(n) =~= nick);
    assert((marks + full).skip(n) =~= full);
    lemma_drop_leading(marks + nick, ranks.to_set(), n);
    lemma_drop_leading(marks + full, ranks.to_set(), n);
    lemma_split_joined(nick, '!', user_and_host);
    lemma_first_at(nick, '!');
    assert(nick.take(nick.len() as int) =~= nick);
}

} // verus!
