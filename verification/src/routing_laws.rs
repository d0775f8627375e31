//! Where each message of a server is shown, by which line, and what it leaves as it was.

use crate::caps::{law_grants_are_followed, offered_names, to_request};
use crate::ctcp::{answer_to, delimited};
use crate::events::{ActionView, IrcEventView, RequestView};
use crate::message::{optional, raw_text, sender_of, CapKind, Command, Message, Prefix, Tag};
use crate::roster::{removed, renamed};
use crate::session_laws::{ends_members, lists_members};
use crate::session_model::{
    ctcp_body, entry_nick, is_ctcp, lemma_batch_at, listed_nicks, tag_of, tag_value, SessionView,
};
use crate::sorting::{lemma_push_contains, lemma_sorted_set, same_texts, sorted_set};
use crate::text::{after, before, join, texts, words_of};
use crate::text_laws::{law_leading_marks_are_dropped, law_trailing_marks_are_dropped};
use vstd::prelude::*;

verus! {

/// A line for the buffer of `target` on `server`.
pub open spec fn line(server: Seq<char>, target: Seq<char>, text: Seq<char>) -> ActionView {
    ActionView::Show(IrcEventView::Line { server, target, text })
}

/// A session begins with nobody known, and with what is usual on servers: channels begin with
/// one of four characters, and ranks are marked by five.
pub proof fn law_a_session_begins_with_what_is_usual(
    server: Seq<char>,
    granted: Seq<Seq<char>>,
    c: char,
    channel: Seq<char>,
)
    ensures
        ({
            let begun = SessionView::begun(server, granted);
            &&& begun.server == server
            &&& begun.granted == granted
            &&& begun.channel_types.contains(c) <==> c == '#' || c == '&' || c == '!' || c == '+'
            &&& begun.ranks.contains(c) <==> c == '@' || c == '+' || c == '%' || c == '~' || c
                == '&'
            &&& begun.members.get(channel) == Seq::<Seq<char>>::empty()
            &&& begun.names.get(channel) == Seq::<Seq<char>>::empty()
            &&& !begun.whox
            &&& begun.away.len() == 0
            &&& begun.asked.len() == 0
            &&& begun.batches.len() == 0
        }),
{
    reveal_strlit("#&!+");
    reveal_strlit("@+%~&");
    let types = "#&!+"@;
    let ranks = "@+%~&"@;
    assert(types[0] == '#' && types[1] == '&' && types[2] == '!' && types[3] == '+');
    assert(ranks[0] == '@' && ranks[1] == '+' && ranks[2] == '%' && ranks[3] == '~' && ranks[4]
        == '&');
    assert(types.len() == 4 && ranks.len() == 5);
}

/// A notice is shown at its target where that begins with one of the characters by which the
/// server names its channels, whatever follows; any other is shown among the lines of the
/// server. It changes nothing.
pub proof fn law_notices_are_shown_where_they_belong(
    session: SessionView,
    our_nick: Seq<char>,
    message: Message,
    now: Seq<char>,
)
    requires
        session.batch_of(message) is None,
        message.command is Notice,
    ensures
        message.command matches Command::Notice { target, text } && session.after(
            our_nick,
            message,
            now,
        ) == (
            session,
            seq![
                line(
                    session.server,
                    if target@.len() > 0 && session.channel_types.contains(target@[0]) {
                        target@
                    } else {
                        "(server)"@
                    },
                    "-"@ + sender_of(message) + "- "@ + text@,
                ),
            ],
        ),
{
}

/// In a session that has just begun, a notice to any channel of the usual kinds is shown there.
pub proof fn law_usual_channels_get_their_notices(
    server: Seq<char>,
    granted: Seq<Seq<char>>,
    our_nick: Seq<char>,
    message: Message,
    now: Seq<char>,
)
    requires
        message.command matches Command::Notice { target, .. } && target@.len() > 0 && (target@[0]
            == '#' || target@[0] == '&' || target@[0] == '!' || target@[0] == '+'),
    ensures
        message.command matches Command::Notice { target, text } && SessionView::begun(
            server,
            granted,
        ).after(our_nick, message, now).1 == seq![
            line(server, target@, "-"@ + sender_of(message) + "- "@ + text@),
        ],
{
    let begun = SessionView::begun(server, granted);
    if let Command::Notice { target, text } = message.command {
        law_a_session_begins_with_what_is_usual(server, granted, target@[0], Seq::empty());
        law_notices_are_shown_where_they_belong(begun, our_nick, message, now);
    }
}

/// What is said is shown at its target, or where it is said to the client itself, at whom it
/// comes from; its text is shown whole behind the nickname. It changes nothing and nothing is
/// sent. This holds of all but what stands between two delimiters.
pub proof fn law_what_is_said_is_shown(
    session: SessionView,
    our_nick: Seq<char>,
    message: Message,
    now: Seq<char>,
)
    requires
        session.batch_of(message) is None,
        message.command matches Command::Privmsg { text, .. } && !(text@.len() > 0 && text@[0]
            == '\u{1}' && text@.last() == '\u{1}'),
    ensures
        message.command matches Command::Privmsg { target, text } && session.after(
            our_nick,
            message,
            now,
        ) == (
            session,
            seq![
                line(
                    session.server,
                    if target@ == our_nick {
                        sender_of(message)
                    } else {
                        target@
                    },
                    "<"@ + sender_of(message) + "> "@ + text@,
                ),
            ],
        ),
{
}

/// Every character of `s` is a delimiter.
pub open spec fn is_delimiters(s: Seq<char>) -> bool {
    forall|i: int| 0 <= i < s.len() ==> #[trigger] s[i] == '\u{1}'
}

/// A request is what stands between the delimiters at its ends, however many there are.
pub proof fn law_requests_stand_between_delimiters(
    lead: Seq<char>,
    body: Seq<char>,
    tail: Seq<char>,
)
    requires
        is_delimiters(lead),
        is_delimiters(tail),
        lead.len() > 0,
        tail.len() > 0,
        body.len() == 0 || (body[0] != '\u{1}' && body.last() != '\u{1}'),
    ensures
        is_ctcp(lead + body + tail),
        ctcp_body(lead + body + tail) == body,
{
    let set = set!['\u{1}'];
    let text = lead + body + tail;
    assert(text[0] == lead[0]);
    assert(text.last() == tail[tail.len() - 1]);
    if body.len() == 0 {
        assert(Seq::<char>::empty() + text =~= text);
        assert forall|i: int| 0 <= i < text.len() implies set.contains(#[trigger] text[i]) by {
            if i < lead.len() {
                assert(text[i] == lead[i]);
            } else {
                assert(text[i] == tail[i - lead.len()]);
            }
        }
        law_trailing_marks_are_dropped(Seq::empty(), text, set);
        law_leading_marks_are_dropped(Seq::empty(), Seq::empty(), set);
        assert(Seq::<char>::empty() + Seq::<char>::empty() =~= Seq::<char>::empty());
    } else {
        law_trailing_marks_are_dropped(lead + body, tail, set);
        law_leading_marks_are_dropped(lead, body, set);
    }
}

/// A request is shown among the lines of the server, with whom it comes from; where there is an
/// answer, that is sent to them first, as a notice. It changes nothing.
pub proof fn law_requests_are_answered(
    session: SessionView,
    our_nick: Seq<char>,
    message: Message,
    now: Seq<char>,
    lead: Seq<char>,
    body: Seq<char>,
    tail: Seq<char>,
)
    requires
        session.batch_of(message) is None,
        message.command matches Command::Privmsg { text, .. } && text@ == lead + body + tail,
        is_delimiters(lead),
        is_delimiters(tail),
        lead.len() > 0,
        tail.len() > 0,
        body.len() == 0 || (body[0] != '\u{1}' && body.last() != '\u{1}'),
    ensures
        ({
            let shown = line(
                session.server,
                "(server)"@,
                "CTCP "@ + body + " from "@ + sender_of(message),
            );
            session.after(our_nick, message, now) == (
                session,
                match answer_to(body, now) {
                    Some(answer) => seq![
                        ActionView::Send(
                            RequestView::Notice {
                                target: sender_of(message),
                                text: delimited(answer),
                            },
                        ),
                        shown,
                    ],
                    None => seq![shown],
                },
            )
        }),
{
    law_requests_stand_between_delimiters(lead, body, tail);
}

/// A join is shown in its channel: the nickname, the account in square brackets unless there is
/// none, the real name and the address in round ones, and the channel.
pub proof fn law_joins_are_shown(
    session: SessionView,
    our_nick: Seq<char>,
    message: Message,
    now: Seq<char>,
)
    requires
        message.command is Join,
    ensures
        message.command matches Command::Join { channel, account, realname } && {
            let by = match account {
                Some(name) if name@.len() > 0 && name@ != "*"@ => " ["@ + name@ + "]"@,
                _ => Seq::empty(),
            };
            let named = match realname {
                Some(name) if name@.len() > 0 => " ("@ + name@ + ")"@,
                _ => Seq::empty(),
            };
            let address = match message.prefix {
                Some(Prefix::Nickname(_, user, host)) => user@ + if host@.len() > 0 {
                    seq!['@'] + host@
                } else {
                    Seq::empty()
                },
                _ => Seq::empty(),
            };
            let at = if address.len() > 0 {
                " ("@ + address + ")"@
            } else {
                Seq::empty()
            };
            let (next, out) = session.after(our_nick, message, now);
            &&& out.last() == line(
                session.server,
                channel@,
                sender_of(message) + by + named + at + " has joined "@ + channel@,
            )
            &&& sender_of(message) != our_nick ==> out.len() == 2 && out[0] == next.show_names(
                channel@,
            )
        },
{
}

/// A join of somebody else puts them behind the members of the channel.
pub proof fn law_who_joins_comes_last(
    session: SessionView,
    our_nick: Seq<char>,
    message: Message,
    now: Seq<char>,
    other: Seq<char>,
)
    requires
        message.command is Join,
    ensures
        message.command matches Command::Join { channel, .. } && {
            let was = session.members;
            let is = session.after(our_nick, message, now).0.members;
            &&& sender_of(message) != our_nick ==> is.get(channel@) == was.get(channel@).push(
                sender_of(message),
            )
            &&& sender_of(message) == our_nick ==> is == was
            &&& other != channel@ ==> is.get(other) == was.get(other)
        },
{
}

/// Who leaves is told in the channel, with the reason where there is one. All others stay in
/// their order.
pub proof fn law_parts_are_shown(
    session: SessionView,
    our_nick: Seq<char>,
    message: Message,
    now: Seq<char>,
    other: Seq<char>,
)
    requires
        message.command is Part,
    ensures
        message.command matches Command::Part { channel, reason } && {
            let why = match reason {
                Some(text) => " ("@ + text@ + ")"@,
                None => Seq::empty(),
            };
            let (next, out) = session.after(our_nick, message, now);
            &&& out == seq![
                next.show_names(channel@),
                line(
                    session.server,
                    channel@,
                    sender_of(message) + " left "@ + channel@ + why,
                ),
            ]
            &&& next.members.get(channel@) == removed(
                session.members.get(channel@),
                sender_of(message),
            )
            &&& other != channel@ ==> next.members.get(other) == session.members.get(other)
        },
{
    reveal(Seq::filter);
    if let Command::Part { channel, reason } = message.command {
        let (next, out) = session.after(our_nick, message, now);
        assert(out =~= seq![next.show_names(channel@), out.last()]);
    }
}

/// Who is kicked is told in the channel, with by whom and with the reason where there is one.
/// All others stay in their order.
pub proof fn law_kicks_are_shown(
    session: SessionView,
    our_nick: Seq<char>,
    message: Message,
    now: Seq<char>,
    other: Seq<char>,
)
    requires
        message.command is Kick,
    ensures
        message.command matches Command::Kick { channel, nick, reason } && {
            let why = match reason {
                Some(text) => " ("@ + text@ + ")"@,
                None => Seq::empty(),
            };
            let (next, out) = session.after(our_nick, message, now);
            &&& out == seq![
                next.show_names(channel@),
                line(
                    session.server,
                    channel@,
                    sender_of(message) + " kicked "@ + nick@ + why,
                ),
            ]
            &&& next.members.get(channel@) == removed(session.members.get(channel@), nick@)
            &&& other != channel@ ==> next.members.get(other) == session.members.get(other)
        },
{
    reveal(Seq::filter);
    if let Command::Kick { channel, nick, reason } = message.command {
        let (next, out) = session.after(our_nick, message, now);
        assert(out =~= seq![next.show_names(channel@), out.last()]);
    }
}

/// Who quits is told among the lines of the server, behind the members of each channel that
/// they were in, in the order of the channels. All others stay in their order.
pub proof fn law_quits_are_shown(
    session: SessionView,
    our_nick: Seq<char>,
    message: Message,
    now: Seq<char>,
    channel: Seq<char>,
    i: int,
)
    requires
        message.command is Quit,
    ensures
        message.command matches Command::Quit { reason } && {
            let why = match reason {
                Some(text) => " ("@ + text@ + ")"@,
                None => Seq::empty(),
            };
            let sender = sender_of(message);
            let left = session.members.holding(sender);
            let (next, out) = session.after(our_nick, message, now);
            &&& out.len() == left.len() + 1
            &&& 0 <= i < left.len() ==> out[i] == next.show_names(left[i])
            &&& out.last() == line(session.server, "(server)"@, sender + " quit"@ + why)
            &&& next.members.get(channel) == removed(session.members.get(channel), sender)
            &&& next.away == removed(session.away, sender)
        },
{
    reveal(Seq::filter);
}

/// Who takes another nickname is told among the lines of the server, behind the members of each
/// channel that they are in, in the order of the channels. Everybody keeps their place.
pub proof fn law_new_nicknames_are_shown(
    session: SessionView,
    our_nick: Seq<char>,
    message: Message,
    now: Seq<char>,
    channel: Seq<char>,
    i: int,
)
    requires
        message.command is Nick,
    ensures
        message.command matches Command::Nick { nick } && {
            let sender = sender_of(message);
            let there = session.members.holding(sender);
            let (next, out) = session.after(our_nick, message, now);
            &&& out.len() == there.len() + 1
            &&& 0 <= i < there.len() ==> out[i] == next.show_names(there[i])
            &&& out.last() == line(
                session.server,
                "(server)"@,
                sender + " is now known as "@ + nick@,
            )
            &&& next.members.get(channel) == renamed(session.members.get(channel), sender, nick@)
            &&& next.away == renamed(session.away, sender, nick@)
        },
{
    if let Command::Nick { nick } = message.command {
        let next = session.after(our_nick, message, now).0;
        assert(next.members.get(channel) =~= renamed(
            session.members.get(channel),
            sender_of(message),
            nick@,
        ));
    }
}

/// A topic is shown in its channel. Any other reply is shown among the lines of the server,
/// with all its arguments.
pub proof fn law_replies_are_shown(
    session: SessionView,
    our_nick: Seq<char>,
    message: Message,
    now: Seq<char>,
)
    requires
        message.command matches Command::Reply { code, .. } && code != 353 && code != 366,
    ensures
        message.command matches Command::Reply { code, args } && session.after(
            our_nick,
            message,
            now,
        ).1.last() == if code == 332 {
            line(
                session.server,
                if args@.len() > 1 {
                    args@[1]@
                } else {
                    "(server)"@
                },
                "topic: "@ + if args@.len() > 2 {
                    args@[2]@
                } else {
                    Seq::empty()
                },
            )
        } else {
            line(session.server, "(server)"@, join(texts(args@), " "@))
        },
{
    if let Command::Reply { code, args } = message.command {
        lemma_server_stays(session, texts(args@).skip(1));
    }
}

/// What the server supports does not change who it is.
proof fn lemma_server_stays(session: SessionView, tokens: Seq<Seq<char>>)
    ensures
        session.with_tokens(tokens) == (SessionView {
            channel_types: session.with_tokens(tokens).channel_types,
            ranks: session.with_tokens(tokens).ranks,
            whox: session.with_tokens(tokens).whox,
            ..session
        }),
    decreases tokens.len(),
{
    if tokens.len() > 0 {
        lemma_server_stays(session, tokens.drop_last());
    }
}

/// What has no form of its own is shown as it came, among the lines of the server.
pub proof fn law_the_rest_is_shown_as_it_came(
    session: SessionView,
    our_nick: Seq<char>,
    message: Message,
    now: Seq<char>,
)
    requires
        message.command is Away || message.command is Cap || message.command is Authenticate
            || message.command is Raw || message.command is Other,
    ensures
        session.after(our_nick, message, now).1.last() == line(
            session.server,
            "(server)"@,
            raw_text(message),
        ),
        message.command is Authenticate || message.command is Other ==> session.after(
            our_nick,
            message,
            now,
        ).0 == session && session.after(our_nick, message, now).1.len() == 1,
{
}

/// What is shown of a channel are all its members, in their order, and those of them who are
/// away.
pub proof fn law_lists_of_members_are_whole(session: SessionView, channel: Seq<char>)
    ensures
        session.show_names(channel) == ActionView::Show(
            IrcEventView::Names {
                server: session.server,
                channel,
                nicks: session.members.get(channel),
                away: session.members.get(channel).filter(
                    |n: Seq<char>| session.away.contains(n),
                ),
            },
        ),
{
}

/// Every word of a list of members gives one nickname, in order.
pub proof fn law_every_entry_is_listed(list: Seq<char>, ranks: Seq<char>, i: int)
    requires
        0 <= i < words_of(list).len(),
    ensures
        listed_nicks(list, ranks).len() == words_of(list).len(),
        listed_nicks(list, ranks)[i] == entry_nick(words_of(list)[i], ranks),
        listed_nicks(list, ranks).contains(entry_nick(words_of(list)[i], ranks)),
{
    assert(listed_nicks(list, ranks)[i] == entry_nick(words_of(list)[i], ranks));
}

/// The nickname of an entry is what stands behind the marks of rank, up to the first
/// exclamation mark.
pub proof fn law_entries_are_read_whole(ranks: Seq<char>, marks: Seq<char>, rest: Seq<char>)
    requires
        forall|i: int| 0 <= i < marks.len() ==> ranks.contains(#[trigger] marks[i]),
        rest.len() == 0 || !ranks.contains(rest[0]),
    ensures
        entry_nick(marks + rest, ranks) == before(rest, '!'),
{
    assert forall|i: int| 0 <= i < marks.len() implies ranks.to_set().contains(
        #[trigger] marks[i],
    ) by {
        assert(ranks.contains(marks[i]));
    }
    law_leading_marks_are_dropped(marks, rest, ranks.to_set());
}

/// Once the end of a list of members is told, the members of the channel are exactly those
/// whom its words name, besides those who were listed before.
pub proof fn law_everybody_listed_is_a_member(
    session: SessionView,
    our_nick: Seq<char>,
    lists: Message,
    ends: Message,
    channel: Seq<char>,
    list: Seq<char>,
    now: Seq<char>,
    nick: Seq<char>,
)
    requires
        lists_members(lists, channel, list),
        ends_members(ends, channel),
    ensures
        session.after(our_nick, lists, now).0.after(our_nick, ends, now).0.members.get(
            channel,
        ).contains(nick) <==> session.names.get(channel).contains(nick) || exists|j: int|
            0 <= j < words_of(list).len() && entry_nick(
                #[trigger] words_of(list)[j],
                session.ranks,
            ) == nick,
{
    if let Command::Reply { code, args } = lists.command {
        assert(texts(args@)[2] == args@[2]@);
        assert(texts(args@).last() == args@.last()@);
    }
    if let Command::Reply { code, args } = ends.command {
        assert(texts(args@)[1] == args@[1]@);
    }
    let was = session.names.get(channel);
    let more = listed_nicks(list, session.ranks);
    let all = was + more;
    lemma_sorted_set(all);
    assert(same_texts(sorted_set(all), all));
    assert(sorted_set(all).contains(nick) <==> all.contains(nick));
    if all.contains(nick) && !was.contains(nick) {
        let i = choose|i: int| 0 <= i < all.len() && all[i] == nick;
        if i < was.len() {
            assert(was[i] == nick);
        }
        assert(more[i - was.len()] == nick);
        assert(entry_nick(words_of(list)[i - was.len()], session.ranks) == nick);
    }
    if was.contains(nick) {
        let i = choose|i: int| 0 <= i < was.len() && was[i] == nick;
        assert(all[i] == nick);
    }
    if exists|j: int|
        0 <= j < words_of(list).len() && entry_nick(#[trigger] words_of(list)[j], session.ranks)
            == nick {
        let j = choose|j: int|
            0 <= j < words_of(list).len() && entry_nick(
                #[trigger] words_of(list)[j],
                session.ranks,
            ) == nick;
        assert(more[j] == nick);
        assert(all[was.len() + j] == nick);
    }
}

/// A list of members and its end touch the channel that they name and no other, and the list
/// alone shows nothing and changes no members.
pub proof fn law_other_channels_keep_their_members(
    session: SessionView,
    our_nick: Seq<char>,
    message: Message,
    channel: Seq<char>,
    list: Seq<char>,
    now: Seq<char>,
    other: Seq<char>,
)
    requires
        lists_members(message, channel, list) || ends_members(message, channel),
        other != channel,
    ensures
        ({
            let (next, out) = session.after(our_nick, message, now);
            &&& next.members.get(other) == session.members.get(other)
            &&& next.names.get(other) == session.names.get(other)
            &&& lists_members(message, channel, list) ==> next.members == session.members && out
                == Seq::<ActionView>::empty()
        }),
{
    if let Command::Reply { code, args } = message.command {
        if args@.len() > 2 {
            assert(texts(args@)[2] == args@[2]@);
        }
        if args@.len() > 1 {
            assert(texts(args@)[1] == args@[1]@);
        }
    }
}

/// What the server supports is told token by token, by the key before the equals sign. A token
/// that is not known changes nothing.
pub proof fn law_tokens_are_told_by_their_key(session: SessionView, token: Seq<char>)
    ensures
        ({
            let key = before(token, '=');
            let next = session.with_token(token);
            &&& next.channel_types == if key == "CHANTYPES"@ {
                after(token, '=')
            } else {
                session.channel_types
            }
            &&& next.ranks == if key == "PREFIX"@ {
                after(after(token, '='), ')')
            } else {
                session.ranks
            }
            &&& next.whox == (session.whox || key == "WHOX"@)
            &&& next == (SessionView {
                channel_types: next.channel_types,
                ranks: next.ranks,
                whox: next.whox,
                ..session
            })
        }),
{
    reveal_strlit("CHANTYPES");
    reveal_strlit("PREFIX");
    reveal_strlit("WHOX");
    assert("CHANTYPES"@.len() == 9 && "PREFIX"@.len() == 6 && "WHOX"@.len() == 4);
}

/// Tokens count one after the other, all but the first argument of the reply, which is whom it
/// is for.
pub proof fn law_every_token_counts(
    session: SessionView,
    our_nick: Seq<char>,
    message: Message,
    now: Seq<char>,
    tokens: Seq<Seq<char>>,
    token: Seq<char>,
)
    ensures
        session.with_tokens(Seq::empty()) == session,
        session.with_tokens(tokens.push(token)) == session.with_tokens(tokens).with_token(token),
        message.command matches Command::Reply { code, args } ==> (code == 5 && args@.len() > 0
            ==> session.after(our_nick, message, now).0 == session.with_tokens(
            texts(args@).skip(1),
        )),
{
    assert(tokens.push(token).drop_last() =~= tokens);
}

/// While an answer is due on who is away, a reply tells it of the one whom it names, and of
/// nobody else.
pub proof fn law_answers_tell_who_is_away(
    session: SessionView,
    our_nick: Seq<char>,
    message: Message,
    now: Seq<char>,
    nick: Seq<char>,
)
    requires
        session.asked.len() > 0,
        session.whox,
        session.granted.contains("away-notify"@),
        message.command matches Command::Raw { name, args } && name@ == "354"@ && args@.len() == 3
            && args@[2]@.len() > 0 && (args@[2]@[0] == 'H' || args@[2]@[0] == 'G'),
    ensures
        message.command matches Command::Raw { name, args } && (session.after(
            our_nick,
            message,
            now,
        ).0.away.contains(nick) <==> if nick == args@[1]@ {
            args@[2]@[0] == 'G'
        } else {
            session.away.contains(nick)
        }),
{
    if let Command::Raw { name, args } = message.command {
        assert(texts(args@)[1] == args@[1]@);
        assert(texts(args@)[2] == args@[2]@);
        let rest = removed(session.away, args@[1]@);
        lemma_removed_holds(session.away, args@[1]@, nick);
        lemma_push_contains(rest, args@[1]@, nick);
    }
}

/// What is left of a list when a text is removed.
proof fn lemma_removed_holds(list: Seq<Seq<char>>, text: Seq<char>, x: Seq<char>)
    ensures
        removed(list, text).contains(x) <==> list.contains(x) && x != text,
    decreases list.len(),
{
    reveal(Seq::filter);
    if list.len() > 0 {
        let fewer = list.drop_last();
        lemma_removed_holds(fewer, text, x);
        assert(list =~= fewer.push(list.last()));
        lemma_push_contains(fewer, list.last(), x);
        lemma_push_contains(removed(fewer, text), list.last(), x);
    }
}

/// `message` carries `list` as its last parameter, in a capability message.
pub open spec fn tells(message: Message, sub: CapKind, list: Seq<char>) -> bool {
    message.command matches Command::Cap { sub: s, first, second } && s == sub && (optional(second)
        == Some(list) || (second is None && optional(first) == Some(list)))
}

/// In the course of a session, what the server acknowledges is granted or withdrawn, what it
/// deletes is not granted any more, and what it newly offers is asked for as far as it is
/// wanted, but not authenticated with.
pub proof fn law_capabilities_are_followed(
    session: SessionView,
    our_nick: Seq<char>,
    message: Message,
    now: Seq<char>,
    list: Seq<char>,
    name: Seq<char>,
)
    ensures
        ({
            let (next, out) = session.after(our_nick, message, now);
            let wanted = to_request(offered_names(list), false);
            &&& tells(message, CapKind::Ack, list) && (name.len() == 0 || name[0] != '-') ==> (
            next.granted.contains(name) <==> words_of(list).contains(name) || (
            session.granted.contains(name) && !words_of(list).contains(seq!['-'] + name)))
            &&& tells(message, CapKind::Del, list) ==> (next.granted.contains(name)
                <==> session.granted.contains(name) && !offered_names(list).contains(name))
            &&& tells(message, CapKind::New, list) ==> next.granted == session.granted && if wanted.len()
                > 0 {
                out.len() == 2 && out[0] == ActionView::Send(RequestView::Capabilities(wanted))
            } else {
                out.len() == 1
            }
        }),
{
    if name.len() == 0 || name[0] != '-' {
        law_grants_are_followed(session.granted, words_of(list), name);
    }
    let keep = |n: Seq<char>| !offered_names(list).contains(n);
    let kept = session.granted.filter(keep);
    if session.granted.contains(name) && keep(name) {
        let i = choose|i: int| 0 <= i < session.granted.len() && session.granted[i] == name;
        session.granted.lemma_filter_contains(keep, i);
    }
    if kept.contains(name) {
        let i = choose|i: int| 0 <= i < kept.len() && kept[i] == name;
        session.granted.lemma_filter_pred(keep, i);
        session.granted.lemma_filter_contains_rev(keep, name);
    }
    if tells(message, CapKind::Del, list) {
        assert(session.after(our_nick, message, now).0.granted == kept);
    }
}

/// The first tag of a key gives the value, which is empty where the tag has none.
pub proof fn law_the_first_tag_counts(message: Message, key: Seq<char>, i: int)
    requires
        message.tags matches Some(tags) && 0 <= i < tags@.len() && tags@[i].key@ == key
            && forall|j: int| 0 <= j < i ==> (#[trigger] tags@[j]).key@ != key,
    ensures
        message.tags matches Some(tags) && tag_of(message, key) == Some(
            match tags@[i].value {
                Some(value) => value@,
                None => Seq::empty(),
            },
        ),
{
    if let Some(tags) = message.tags {
        lemma_first_tag(tags@, key, i);
    }
}

/// Where the first tag of a key stands.
proof fn lemma_first_tag(tags: Seq<Tag>, key: Seq<char>, i: int)
    requires
        0 <= i <= tags.len(),
        i < tags.len() ==> tags[i].key@ == key,
        forall|j: int| 0 <= j < i ==> (#[trigger] tags[j]).key@ != key,
    ensures
        tag_value(tags, key) == if i < tags.len() {
            Some(
                match tags[i].value {
                    Some(value) => value@,
                    None => Seq::empty(),
                },
            )
        } else {
            None
        },
    decreases tags.len(),
{
    if i > 0 {
        let rest = tags.skip(1);
        assert(tags[0].key@ != key);
        assert forall|j: int| 0 <= j < i - 1 implies (#[trigger] rest[j]).key@ != key by {
            assert(rest[j] == tags[j + 1]);
        }
        lemma_first_tag(rest, key, i - 1);
    }
}

/// A message without a tag of a key has no value for it.
pub proof fn law_missing_tags_have_no_value(message: Message, key: Seq<char>)
    requires
        message.tags matches Some(tags) ==> forall|j: int|
            0 <= j < tags@.len() ==> (#[trigger] tags@[j]).key@ != key,
    ensures
        tag_of(message, key) is None,
{
    if let Some(tags) = message.tags {
        lemma_first_tag(tags@, key, tags@.len() as int);
    }
}

/// A batch of any other type, and the end of a batch that is not known, is shown as it came.
pub proof fn law_other_batches_are_shown(
    session: SessionView,
    our_nick: Seq<char>,
    message: Message,
    now: Seq<char>,
)
    requires
        message.command matches Command::Batch { reference, kind } && {
            ||| reference@.len() == 0
            ||| reference@[0] != '+' && reference@[0] != '-'
            ||| reference@[0] == '+' && optional(kind) != Some("draft/multiline"@) && optional(
                kind,
            ) != Some("DRAFT/MULTILINE"@)
            ||| reference@[0] == '-' && forall|j: int|
                0 <= j < session.batches.len() ==> (#[trigger] session.batches[j]).reference
                    != reference@.skip(1)
        },
    ensures
        session.after(our_nick, message, now) == (
            session,
            seq![line(session.server, "(server)"@, raw_text(message))],
        ),
{
    if let Command::Batch { reference, kind } = message.command {
        if forall|j: int|
            0 <= j < session.batches.len() ==> (#[trigger] session.batches[j]).reference
                != reference@.skip(1) {
            lemma_batch_at(
                session.batches,
                reference@.skip(1),
                session.batches.len() as int,
            );
        }
    }
}

/// Each message changes what it is about, and nothing else that the session knows.
pub proof fn law_what_a_message_leaves(
    session: SessionView,
    our_nick: Seq<char>,
    message: Message,
    now: Seq<char>,
)
    ensures
        ({
            let next = session.after(our_nick, message, now).0;
            let code = match message.command {
                Command::Reply { code, .. } => code as int,
                _ => -1,
            };
            &&& next.server == session.server
            &&& !(message.command is Cap) ==> next.granted == session.granted
            &&& code != 5 ==> next.channel_types == session.channel_types && next.ranks
                == session.ranks && next.whox == session.whox
            &&& !(message.command is Join || message.command is Part || message.command is Kick
                || message.command is Quit || message.command is Nick || code == 366)
                ==> next.members == session.members
            &&& code != 353 && code != 366 ==> next.names == session.names
            &&& !(message.command is Quit || message.command is Nick || message.command is Away
                || message.command is Raw) ==> next.away == session.away
            &&& code != 366 && code != 315 ==> next.asked == session.asked
            &&& !(message.command is Batch || message.command is Privmsg
                || message.command is Notice) ==> next.batches == session.batches
        }),
{
    if let Command::Reply { code, args } = message.command {
        lemma_server_stays(session, texts(args@).skip(1));
    }
}

/// A line belongs to a batch only where it says so, and where that batch is open: without a tag
/// that names one it belongs to none, and with one it belongs to the first batch of that name.
pub proof fn law_lines_name_their_batch(session: SessionView, message: Message, i: int)
    ensures
        tag_of(message, "batch"@) is None ==> session.batch_of(message) is None,
        tag_of(message, "batch"@) matches Some(reference) ==> {
            &&& (forall|j: int|
                0 <= j < session.batches.len() ==> (#[trigger] session.batches[j]).reference
                    != reference) ==> session.batch_of(message) is None
            &&& 0 <= i < session.batches.len() && session.batches[i].reference == reference && (
            forall|j: int|
                0 <= j < i ==> (#[trigger] session.batches[j]).reference != reference)
                ==> session.batch_of(message) == Some(i)
        },
{
    if let Some(reference) = tag_of(message, "batch"@) {
        if forall|j: int|
            0 <= j < session.batches.len() ==> (#[trigger] session.batches[j]).reference
                != reference {
            lemma_batch_at(session.batches, reference, session.batches.len() as int);
        }
        if 0 <= i < session.batches.len() && session.batches[i].reference == reference && (forall|
            j: int,
        | 0 <= j < i ==> (#[trigger] session.batches[j]).reference != reference) {
            lemma_batch_at(session.batches, reference, i);
        }
    }
}

} // verus!
