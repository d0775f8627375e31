//! A session with a server: what its messages change, show and ask for.

use crate::caps::{acknowledge, note_offered, offered_names, requested};
use crate::clock::{is_date_and_time, lemma_date_and_time, local_date_and_time};
use crate::ctcp::{
    answer_to, ascii_answer_to, asks_for_time, enclose, has_ascii_command, reply_at, DELIMITER,
};
use crate::events::{
    actions, lemma_actions_push, Action, ActionView, IrcEvent, Request, SERVER_TARGET,
};
use crate::letter_case::uppercase_text;
use crate::message::{display_raw, optional, CapKind, Command, Message, Prefix};
use crate::negotiate::last_of;
use crate::outgoing::Typist;
use crate::roster::{drop_text, rename_text, select, take_first, Roster};
use crate::session_model::{
    batch_at, bracketed, ctcp_body, is_ctcp, join_text, lemma_batch_at, listed_nicks, marked_away, tag_of,
    tag_value, user_and_host, BatchView, SaidView, SessionView, HISTORY_LINES,
    USUAL_CHANNEL_TYPES, USUAL_RANKS,
};
use crate::sorting::sort_dedup;
use crate::text::{
    before, cat, cat3, has_char, head_of, holds, joined, lemma_texts_push, same, tail_of, texts,
    without_ends, without_marks, words, words_of,
};
use vstd::prelude::*;

verus! {

/// A message that is being put together from the lines of a batch.
struct Said {
    sender: String,
    target: String,
    text: String,
    notice: bool,
}

/// A batch of lines that make one message.
struct Batch {
    reference: String,
    said: Option<Said>,
}

/// What a [`Said`] is.
spec fn said_view(said: Option<Said>) -> Option<SaidView> {
    match said {
        Some(s) => Some(
            SaidView { sender: s.sender@, target: s.target@, text: s.text@, notice: s.notice },
        ),
        None => None,
    }
}

/// What the batches of `v` are.
spec fn batches_of(v: Seq<Batch>) -> Seq<BatchView> {
    Seq::new(
        v.len(),
        |i: int| BatchView { reference: v[i].reference@, said: said_view(v[i].said) },
    )
}

/// A session with a server.
pub struct Session {
    server: String,
    members: Roster,
    names: Roster,
    granted: Vec<String>,
    channel_types: String,
    ranks: String,
    whox: bool,
    away: Vec<String>,
    asked: Vec<String>,
    batches: Vec<Batch>,
}

impl View for Session {
    type V = SessionView;

    closed spec fn view(&self) -> SessionView {
        SessionView {
            server: self.server@,
            members: self.members@,
            names: self.names@,
            granted: texts(self.granted@),
            channel_types: self.channel_types@,
            ranks: self.ranks@,
            whox: self.whox,
            away: texts(self.away@),
            asked: texts(self.asked@),
            batches: batches_of(self.batches@),
        }
    }
}

/// The value of the first tag of `message` of the key `key`.
fn find_tag(message: &Message, key: &str) -> (value: Option<String>)
    ensures
        optional(value) == tag_of(*message, key@),
{
    match &message.tags {
        Some(tags) => {
            let mut i: usize = 0;
            assert(tags@.skip(0) =~= tags@);
            while i < tags.len()
                invariant
                    message.tags == Some(*tags),
                    i <= tags.len(),
                    tag_value(tags@.skip(i as int), key@) == tag_value(tags@, key@),
                decreases tags.len() - i,
            {
                assert(tags@.skip(i as int)[0] == tags@[i as int]);
                assert(tags@.skip(i as int).skip(1) =~= tags@.skip(i + 1));
                if same(tags[i].key.as_str(), key) {
                    return match &tags[i].value {
                        Some(value) => Some(value.clone()),
                        None => Some(String::new()),
                    };
                }
                i += 1;
            }
            None
        },
        None => None,
    }
}

/// Part of a line between `open` and `close`, or nothing where the part is empty.
fn bracket(open: &str, part: &str, close: &str) -> (text: String)
    ensures
        text@ == bracketed(open@, part@, close@),
{
    if part.is_empty() {
        String::new()
    } else {
        cat3(open, part, close)
    }
}

/// A reason in brackets behind a line, where one is given.
fn reason_in_brackets(reason: &Option<String>) -> (text: String)
    ensures
        text@ == crate::session_model::reason_text(*reason),
{
    match reason {
        Some(text) => cat3(" (", text.as_str(), ")"),
        None => String::new(),
    }
}

/// User and host of whom a message comes from.
fn address(prefix: &Option<Prefix>) -> (text: String)
    ensures
        text@ == user_and_host(*prefix),
{
    proof {
        reveal_strlit("@");
        assert("@"@ =~= seq!['@']);
    }
    match prefix {
        Some(Prefix::Nickname(_, user, host)) => {
            if host.as_str().is_empty() {
                assert(user@ + Seq::<char>::empty() =~= user@);
                user.clone()
            } else {
                let text = cat3(user.as_str(), "@", host.as_str());
                assert(text@ =~= user@ + (seq!['@'] + host@));
                text
            }
        },
        _ => String::new(),
    }
}

/// The line of a join.
fn join_line(
    message: &Message,
    channel: &str,
    account: &Option<String>,
    realname: &Option<String>,
) -> (text: String)
    ensures
        text@ == join_text(*message, channel@, *account, *realname),
{
    let mut text = message.sender();
    match account {
        Some(name) => {
            if !same(name.as_str(), "*") {
                text.append(bracket(" [", name.as_str(), "]").as_str());
            } else {
                assert(text@ + Seq::<char>::empty() =~= text@);
            }
        },
        None => {
            assert(text@ + Seq::<char>::empty() =~= text@);
        },
    }
    match realname {
        Some(name) => {
            text.append(bracket(" (", name.as_str(), ")").as_str());
        },
        None => {
            assert(text@ + Seq::<char>::empty() =~= text@);
        },
    }
    text.append(bracket(" (", address(&message.prefix).as_str(), ")").as_str());
    text.append(" has joined ");
    text.append(channel);
    text
}

/// The nicknames in a list of members.
fn nicks_in(list: &str, ranks: &str) -> (nicks: Vec<String>)
    ensures
        texts(nicks@) == listed_nicks(list@, ranks@),
{
    let entries = words(list);
    let mut nicks: Vec<String> = Vec::new();
    let mut i: usize = 0;
    while i < entries.len()
        invariant
            i <= entries.len(),
            texts(entries@) == words_of(list@),
            texts(nicks@) == listed_nicks(list@, ranks@).take(i as int),
        decreases entries.len() - i,
    {
        let nick = head_of(without_marks(entries[i].as_str(), ranks).as_str(), '!');
        proof {
            assert(texts(entries@)[i as int] == entries@[i as int]@);
            assert(listed_nicks(list@, ranks@)[i as int] == nick@);
            lemma_texts_push(nicks@, nick);
            assert(listed_nicks(list@, ranks@).take(i + 1) =~= listed_nicks(list@, ranks@).take(
                i as int,
            ).push(nick@));
        }
        nicks.push(nick);
        i += 1;
    }
    assert(listed_nicks(list@, ranks@).take(i as int) =~= listed_nicks(list@, ranks@));
    nicks
}

/// The CTCP request that `text` is, without its delimiters.
fn request_text(text: &str) -> (ctcp: Option<String>)
    ensures
        optional(ctcp) == if is_ctcp(text@) {
            Some(ctcp_body(text@))
        } else {
            None
        },
{
    let n: usize = text.unicode_len();
    if n > 0 && text.get_char(0) == DELIMITER && text.get_char(n - 1) == DELIMITER {
        Some(without_ends(text, DELIMITER))
    } else {
        None
    }
}

/// Nothing but an answer to a request for the time depends on the time.
proof fn lemma_time_is_for_those_who_ask(
    session: SessionView,
    our_nick: Seq<char>,
    message: Message,
    now: Seq<char>,
    other: Seq<char>,
)
    requires
        match session.request_in(message) {
            Some((_, ctcp)) => uppercase_text(before(ctcp, ' ')) != "TIME"@,
            None => true,
        },
    ensures
        session.after(our_nick, message, now) == session.after(our_nick, message, other),
{
}

/// One action alone.
fn only(action: Action) -> (out: Vec<Action>)
    ensures
        actions(out@) == seq![action@],
{
    let mut out: Vec<Action> = Vec::new();
    proof {
        lemma_actions_push(out@, action);
        assert(actions(out@) =~= Seq::<ActionView>::empty());
    }
    out.push(action);
    assert(actions(out@) =~= seq![action@]);
    out
}

/// No action.
fn nothing() -> (out: Vec<Action>)
    ensures
        actions(out@) == Seq::<ActionView>::empty(),
{
    let out: Vec<Action> = Vec::new();
    assert(actions(out@) =~= Seq::<ActionView>::empty());
    out
}

impl Session {
    /// The tables of the session are in order.
    pub closed spec fn wf(&self) -> bool {
        self.members.wf() && self.names.wf()
    }

    /// The tables of a session in order have one list under each name.
    pub proof fn lemma_wf(&self)
        requires
            self.wf(),
        ensures
            self@.members.wf(),
            self@.names.wf(),
    {
        self.members.lemma_wf();
        self.names.lemma_wf();
    }

    /// A session with `server` that begins with the capabilities `granted`.
    pub fn new(server: String, granted: Vec<String>) -> (session: Session)
        ensures
            session.wf(),
            session@ == SessionView::begun(server@, texts(granted@)),
    {
        let session = Session {
            server,
            members: Roster::new(),
            names: Roster::new(),
            granted,
            channel_types: USUAL_CHANNEL_TYPES.to_owned(),
            ranks: USUAL_RANKS.to_owned(),
            whox: false,
            away: Vec::new(),
            asked: Vec::new(),
            batches: Vec::new(),
        };
        assert(session@ =~= SessionView::begun(server@, texts(granted@)));
        session
    }

    /// Whether the server has granted the capability `name`.
    pub fn has_capability(&self, name: &str) -> (granted: bool)
        ensures
            granted == self@.granted.contains(name@),
    {
        holds(&self.granted, name)
    }

    /// Who types for `target` on this connection under the nickname `nick`. Where the server
    /// has granted `echo-message`, it sends back what it is sent.
    pub fn typist(&self, nick: String, target: String) -> (typist: Typist)
        ensures
            typist.server@ == self@.server,
            typist.nick@ == nick@,
            typist.target@ == target@,
            typist.server_echoes == self@.granted.contains("echo-message"@),
    {
        Typist {
            server: self.server.clone(),
            nick,
            target,
            server_echoes: holds(&self.granted, "echo-message"),
        }
    }

    fn checks_away(&self) -> (yes: bool)
        ensures
            yes == self@.checks_away(),
    {
        self.whox && holds(&self.granted, "away-notify")
    }

    fn is_channel(&self, target: &str) -> (yes: bool)
        ensures
            yes == self@.is_channel(target@),
    {
        !target.is_empty() && has_char(self.channel_types.as_str(), target.get_char(0))
    }

    fn names_action(&self, channel: &str) -> (action: Action)
        requires
            self.wf(),
        ensures
            action@ == self@.show_names(channel@),
    {
        let nicks = self.members.get(channel);
        let away = select(&nicks, &self.away, true);
        proof {
            let kept = texts(nicks@).filter(
                |t: Seq<char>| texts(self.away@).contains(t) == true,
            );
            assert((|t: Seq<char>| texts(self.away@).contains(t) == true) =~= (|nick: Seq<char>|
                self@.away.contains(nick)));
        }
        Action::Show(
            IrcEvent::Names {
                server: self.server.clone(),
                channel: channel.to_owned(),
                nicks,
                away,
            },
        )
    }

    fn names_actions(&self, channels: &Vec<String>) -> (out: Vec<Action>)
        requires
            self.wf(),
        ensures
            actions(out@) == self@.show_all_names(texts(channels@)),
    {
        let mut out: Vec<Action> = Vec::new();
        let mut i: usize = 0;
        while i < channels.len()
            invariant
                self.wf(),
                i <= channels.len(),
                actions(out@) == self@.show_all_names(texts(channels@)).take(i as int),
            decreases channels.len() - i,
        {
            let action = self.names_action(channels[i].as_str());
            proof {
                lemma_actions_push(out@, action);
                let all = self@.show_all_names(texts(channels@));
                assert(all.take(i + 1) =~= all.take(i as int).push(action@));
            }
            out.push(action);
            i += 1;
        }
        proof {
            let all = self@.show_all_names(texts(channels@));
            assert(all.take(i as int) =~= all);
        }
        out
    }

    fn line_action(&self, target: &str, text: String) -> (action: Action)
        ensures
            action@ == self@.show_line(target@, text@),
    {
        Action::Show(
            IrcEvent::Line { server: self.server.clone(), target: target.to_owned(), text },
        )
    }

    fn note_token(&mut self, token: &str)
        requires
            old(self).wf(),
        ensures
            final(self).wf(),
            final(self)@ == old(self)@.with_token(token@),
    {
        let key = head_of(token, '=');
        let value = tail_of(token, '=');
        if same(key.as_str(), "CHANTYPES") {
            self.channel_types = value;
        } else if same(key.as_str(), "PREFIX") {
            self.ranks = tail_of(value.as_str(), ')');
        } else if same(key.as_str(), "WHOX") {
            self.whox = true;
        }
    }

    fn note_tokens(&mut self, args: &Vec<String>)
        requires
            old(self).wf(),
            args@.len() > 0,
        ensures
            final(self).wf(),
            final(self)@ == old(self)@.with_tokens(texts(args@).skip(1)),
    {
        let ghost start = self@;
        let ghost tokens = texts(args@).skip(1);
        let mut i: usize = 1;
        assert(tokens.take(0) =~= Seq::<Seq<char>>::empty());
        while i < args.len()
            invariant
                1 <= i <= args.len(),
                self.wf(),
                tokens == texts(args@).skip(1),
                self@ == start.with_tokens(tokens.take(i - 1)),
            decreases args.len() - i,
        {
            proof {
                assert(tokens.take(i as int).drop_last() =~= tokens.take(i - 1));
                assert(tokens.take(i as int).last() == args@[i as int]@);
            }
            self.note_token(args[i].as_str());
            i += 1;
        }
        assert(tokens.take(i - 1) =~= tokens);
    }

    fn on_names(&mut self, args: &Vec<String>)
        requires
            old(self).wf(),
        ensures
            final(self).wf(),
            final(self)@ == old(self)@.on_names(texts(args@)),
    {
        if args.len() > 2 {
            let mut list = self.names.get(args[2].as_str());
            let mut more = nicks_in(args[args.len() - 1].as_str(), self.ranks.as_str());
            let ghost before = texts(list@);
            let ghost added = texts(more@);
            list.append(&mut more);
            assert(texts(list@) =~= before + added);
            self.names.set(args[2].as_str(), list);
        }
    }

    fn on_names_end(&mut self, args: &Vec<String>) -> (out: Vec<Action>)
        requires
            old(self).wf(),
        ensures
            final(self).wf(),
            (final(self)@, actions(out@)) == old(self)@.on_names_end(texts(args@)),
    {
        if args.len() > 1 {
            let list = self.names.take(args[1].as_str());
            self.members.set(args[1].as_str(), sort_dedup(&list));
            let mut out = only(self.names_action(args[1].as_str()));
            if self.checks_away() {
                let params = vec![args[1].clone(), "%nf".to_owned()];
                assert(texts(params@) =~= seq![args@[1]@, "%nf"@]);
                let action = Action::Send(Request::Raw { name: "WHO".to_owned(), args: params });
                proof {
                    lemma_actions_push(out@, action);
                }
                out.push(action);
                assert(actions(out@) =~= old(self)@.on_names_end(texts(args@)).1);
                let channel = args[1].clone();
                proof {
                    lemma_texts_push(self.asked@, channel);
                }
                self.asked.push(channel);
            }
            out
        } else {
            nothing()
        }
    }

    fn on_who_end(&mut self, args: &Vec<String>) -> (out: Vec<Action>)
        requires
            old(self).wf(),
        ensures
            final(self).wf(),
            (final(self)@, actions(out@)) == old(self)@.on_who_end(texts(args@)),
    {
        assert(args@.len() > 1 ==> texts(args@)[1] == args@[1]@);
        if args.len() > 1 && take_first(&mut self.asked, args[1].as_str()) {
            only(self.names_action(args[1].as_str()))
        } else {
            nothing()
        }
    }

    fn on_raw(&mut self, name: &str, args: &Vec<String>)
        requires
            old(self).wf(),
        ensures
            final(self).wf(),
            final(self)@ == old(self)@.on_raw(name@, texts(args@)),
    {
        if same(name, "354") && args.len() == 3 && self.checks_away() && self.asked.len() > 0 {
            let flags = args[2].as_str();
            if !flags.is_empty() && (flags.get_char(0) == 'H' || flags.get_char(0) == 'G') {
                self.mark_away(args[1].as_str(), flags.get_char(0) == 'G');
            }
        }
    }

    fn on_join(&mut self, our_nick: &str, sender: &str, channel: &str) -> (out: Vec<Action>)
        requires
            old(self).wf(),
        ensures
            final(self).wf(),
            (final(self)@, actions(out@)) == old(self)@.on_join(our_nick@, sender@, channel@),
    {
        if !same(sender, our_nick) {
            self.members.add(channel, sender);
            only(self.names_action(channel))
        } else if holds(&self.granted, "draft/chathistory") {
            let params = vec![
                "LATEST".to_owned(),
                channel.to_owned(),
                "*".to_owned(),
                HISTORY_LINES.to_owned(),
            ];
            assert(texts(params@) =~= seq!["LATEST"@, channel@, "*"@, HISTORY_LINES@]);
            only(Action::Send(Request::Raw { name: "CHATHISTORY".to_owned(), args: params }))
        } else {
            nothing()
        }
    }

    fn on_leave(&mut self, channel: &str, nick: &str) -> (out: Vec<Action>)
        requires
            old(self).wf(),
        ensures
            final(self).wf(),
            (final(self)@, actions(out@)) == old(self)@.on_leave(channel@, nick@),
    {
        if self.members.has(channel) {
            let list = drop_text(&self.members.get(channel), nick);
            self.members.set(channel, list);
        }
        only(self.names_action(channel))
    }

    fn on_quit(&mut self, nick: &str) -> (out: Vec<Action>)
        requires
            old(self).wf(),
        ensures
            final(self).wf(),
            (final(self)@, actions(out@)) == old(self)@.on_quit(nick@),
    {
        let channels = self.members.holding(nick);
        self.members.drop_everywhere(nick);
        self.away = drop_text(&self.away, nick);
        self.names_actions(&channels)
    }

    fn on_nick(&mut self, nick: &str, new_nick: &str) -> (out: Vec<Action>)
        requires
            old(self).wf(),
        ensures
            final(self).wf(),
            (final(self)@, actions(out@)) == old(self)@.on_nick(nick@, new_nick@),
    {
        let channels = self.members.holding(nick);
        self.members.rename_everywhere(nick, new_nick);
        self.away = rename_text(&self.away, nick, new_nick);
        self.names_actions(&channels)
    }

    fn mark_away(&mut self, nick: &str, is_away: bool)
        requires
            old(self).wf(),
        ensures
            final(self).wf(),
            final(self)@ == (SessionView {
                away: marked_away(old(self)@.away, nick@, is_away),
                ..old(self)@
            }),
    {
        let mut away = drop_text(&self.away, nick);
        if is_away {
            let text = nick.to_owned();
            proof {
                lemma_texts_push(away@, text);
            }
            away.push(text);
        }
        self.away = away;
    }

    fn on_away(&mut self, nick: &str, is_away: bool) -> (out: Vec<Action>)
        requires
            old(self).wf(),
        ensures
            final(self).wf(),
            (final(self)@, actions(out@)) == old(self)@.on_away(nick@, is_away),
    {
        let channels = self.members.holding(nick);
        self.mark_away(nick, is_away);
        self.names_actions(&channels)
    }

    fn on_cap(&mut self, sub: CapKind, first: &Option<String>, second: &Option<String>) -> (out:
        Vec<Action>)
        requires
            old(self).wf(),
        ensures
            final(self).wf(),
            (final(self)@, actions(out@)) == old(self)@.on_cap(
                sub,
                optional(*first),
                optional(*second),
            ),
    {
        let list = match last_of(first, second) {
            Some(list) => list,
            None => String::new(),
        };
        match sub {
            CapKind::New => {
                let mut offered: Vec<String> = Vec::new();
                note_offered(&mut offered, list.as_str());
                assert(texts(offered@) =~= offered_names(list@));
                let wanted = requested(&offered, false);
                if wanted.len() > 0 {
                    only(Action::Send(Request::Capabilities(wanted)))
                } else {
                    nothing()
                }
            },
            CapKind::Ack => {
                acknowledge(&mut self.granted, &words(list.as_str()));
                nothing()
            },
            CapKind::Del => {
                let mut withdrawn: Vec<String> = Vec::new();
                note_offered(&mut withdrawn, list.as_str());
                assert(texts(withdrawn@) =~= offered_names(list@));
                self.granted = select(&self.granted, &withdrawn, false);
                proof {
                    assert((|t: Seq<char>| texts(withdrawn@).contains(t) == false) =~= (|
                        name: Seq<char>,
                    | !offered_names(list@).contains(name)));
                }
                nothing()
            },
            _ => nothing(),
        }
    }

    fn note(&mut self, our_nick: &str, message: &Message) -> (out: Vec<Action>)
        requires
            old(self).wf(),
        ensures
            final(self).wf(),
            (final(self)@, actions(out@)) == old(self)@.noted(our_nick@, *message),
    {
        let sender = message.sender();
        match &message.command {
            Command::Reply { code, args } => {
                if *code == 353 {
                    self.on_names(args);
                    nothing()
                } else if *code == 366 {
                    self.on_names_end(args)
                } else if *code == 5 && args.len() > 0 {
                    self.note_tokens(args);
                    nothing()
                } else if *code == 315 {
                    self.on_who_end(args)
                } else {
                    nothing()
                }
            },
            Command::Join { channel, .. } => self.on_join(
                our_nick,
                sender.as_str(),
                channel.as_str(),
            ),
            Command::Part { channel, .. } => self.on_leave(channel.as_str(), sender.as_str()),
            Command::Kick { channel, nick, .. } => self.on_leave(channel.as_str(), nick.as_str()),
            Command::Quit { .. } => self.on_quit(sender.as_str()),
            Command::Nick { nick } => self.on_nick(sender.as_str(), nick.as_str()),
            Command::Away { reason } => self.on_away(sender.as_str(), reason.is_some()),
            Command::Cap { sub, first, second } => self.on_cap(*sub, first, second),
            Command::Raw { name, args } => {
                self.on_raw(name.as_str(), args);
                nothing()
            },
            _ => nothing(),
        }
    }

    fn on_privmsg(&self, our_nick: &str, sender: &str, target: &str, text: &str, now: &str) -> (out:
        Vec<Action>)
        ensures
            actions(out@) == self@.on_privmsg(our_nick@, sender@, target@, text@, now@),
            is_ctcp(text@) && has_ascii_command(ctcp_body(text@)) ==> answer_to(
                ctcp_body(text@),
                now@,
            ) == ascii_answer_to(ctcp_body(text@), now@),
    {
        if let Some(ctcp) = request_text(text) {
            let mut shown = cat3("CTCP ", ctcp.as_str(), " from ");
            shown.append(sender);
            let line = self.line_action(SERVER_TARGET, shown);
            match reply_at(ctcp.as_str(), now) {
                Some(body) => {
                    let mut out = only(
                        Action::Send(
                            Request::Notice {
                                target: sender.to_owned(),
                                text: enclose(body.as_str()),
                            },
                        ),
                    );
                    proof {
                        lemma_actions_push(out@, line);
                    }
                    out.push(line);
                    assert(actions(out@) =~= self@.on_privmsg(
                        our_nick@,
                        sender@,
                        target@,
                        text@,
                        now@,
                    ));
                    out
                },
                None => only(line),
            }
        } else {
            let mut shown = cat3("<", sender, "> ");
            shown.append(text);
            let place = if same(target, our_nick) {
                sender
            } else {
                target
            };
            only(self.line_action(place, shown))
        }
    }

    fn on_notice(&self, sender: &str, target: &str, text: &str) -> (out: Vec<Action>)
        ensures
            actions(out@) == self@.on_notice(sender@, target@, text@),
    {
        let mut shown = cat3("-", sender, "- ");
        shown.append(text);
        let place = if self.is_channel(target) {
            target
        } else {
            SERVER_TARGET
        };
        only(self.line_action(place, shown))
    }

    fn line_for(&self, message: &Message) -> (line: (String, String))
        ensures
            (line.0@, line.1@) == self@.line_of(*message),
    {
        let sender = message.sender();
        match &message.command {
            Command::Join { channel, account, realname } => (
                channel.clone(),
                join_line(message, channel.as_str(), account, realname),
            ),
            Command::Part { channel, reason } => {
                let mut text = cat3(sender.as_str(), " left ", channel.as_str());
                text.append(reason_in_brackets(reason).as_str());
                (channel.clone(), text)
            },
            Command::Kick { channel, nick, reason } => {
                let mut text = cat3(sender.as_str(), " kicked ", nick.as_str());
                text.append(reason_in_brackets(reason).as_str());
                (channel.clone(), text)
            },
            Command::Quit { reason } => {
                let text = cat3(sender.as_str(), " quit", reason_in_brackets(reason).as_str());
                (SERVER_TARGET.to_owned(), text)
            },
            Command::Nick { nick } => (
                SERVER_TARGET.to_owned(),
                cat3(sender.as_str(), " is now known as ", nick.as_str()),
            ),
            Command::Reply { code, args } => {
                if *code == 332 {
                    let place = if args.len() > 1 {
                        args[1].clone()
                    } else {
                        SERVER_TARGET.to_owned()
                    };
                    let topic = if args.len() > 2 {
                        args[2].clone()
                    } else {
                        String::new()
                    };
                    (place, cat("topic: ", topic.as_str()))
                } else {
                    (SERVER_TARGET.to_owned(), joined(args, " "))
                }
            },
            _ => (SERVER_TARGET.to_owned(), display_raw(message)),
        }
    }

    /// The place of the first batch of a reference among those that are not complete.
    fn find_batch(&self, reference: &str) -> (at: usize)
        ensures
            at == batch_at(self@.batches, reference@),
            at <= self.batches.len(),
            self@.batches.len() == self.batches.len(),
    {
        let mut i: usize = 0;
        while i < self.batches.len()
            invariant
                i <= self.batches.len(),
                forall|j: int|
                    0 <= j < i ==> (#[trigger] batches_of(self.batches@)[j]).reference
                        != reference@,
            decreases self.batches.len() - i,
        {
            assert(batches_of(self.batches@)[i as int].reference
                == self.batches@[i as int].reference@);
            if same(self.batches[i].reference.as_str(), reference) {
                proof {
                    lemma_batch_at(self@.batches, reference@, i as int);
                }
                return i;
            }
            i += 1;
        }
        proof {
            lemma_batch_at(self@.batches, reference@, i as int);
        }
        i
    }

    /// The batch to which a line belongs.
    fn batch_for(&self, message: &Message) -> (at: Option<usize>)
        ensures
            match at {
                Some(i) => self@.batch_of(*message) == Some(i as int) && i < self.batches.len(),
                None => self@.batch_of(*message) is None,
            },
            self@.batches.len() == self.batches.len(),
    {
        match find_tag(message, "batch") {
            Some(reference) => {
                let at: usize = self.find_batch(reference.as_str());
                if at < self.batches.len() {
                    Some(at)
                } else {
                    None
                }
            },
            None => None,
        }
    }

    fn add_line(&mut self, at: usize, message: &Message, target: &str, text: &str, notice: bool)
        requires
            old(self).wf(),
            at < old(self).batches.len(),
        ensures
            final(self).wf(),
            final(self)@ == old(self)@.with_line(at as int, *message, target@, text@, notice),
    {
        let whole = match &self.batches[at].said {
            Some(said) => {
                if find_tag(message, "draft/multiline-concat").is_some() {
                    cat(said.text.as_str(), text)
                } else {
                    cat3(said.text.as_str(), "\n", text)
                }
            },
            None => text.to_owned(),
        };
        let reference = self.batches[at].reference.clone();
        let batch = Batch {
            reference,
            said: Some(
                Said { sender: message.sender(), target: target.to_owned(), text: whole, notice },
            ),
        };
        let ghost changed = BatchView { reference: batch.reference@, said: said_view(batch.said) };
        let ghost start = self.batches@;
        self.batches.set(at, batch);
        assert(batches_of(self.batches@) =~= batches_of(start).update(at as int, changed));
    }

    fn on_batch(
        &mut self,
        our_nick: &str,
        message: &Message,
        reference: &String,
        kind: &Option<String>,
        now: &str,
    ) -> (out: Vec<Action>)
        requires
            old(self).wf(),
        ensures
            final(self).wf(),
            (final(self)@, actions(out@)) == old(self)@.on_batch(
                our_nick@,
                *message,
                reference@,
                optional(*kind),
                now@,
            ),
            message.command == (Command::Batch { reference: *reference, kind: *kind })
                ==> old(self)@.answers_ascii(*message, now@, actions(out@)),
    {
        let reference = reference.as_str();
        let n: usize = reference.unicode_len();
        let multiline = match kind {
            Some(name) => same(name.as_str(), "draft/multiline") || same(
                name.as_str(),
                "DRAFT/MULTILINE",
            ),
            None => false,
        };
        if n > 0 {
            let name = reference.substring_char(1, n).to_owned();
            assert(name@ =~= reference@.skip(1));
            let sign = reference.get_char(0);
            let at: usize = self.find_batch(name.as_str());
            if sign == '+' && multiline {
                let ghost start = self.batches@;
                let ghost added = BatchView { reference: name@, said: None };
                self.batches.push(Batch { reference: name, said: None });
                assert(batches_of(self.batches@) =~= batches_of(start).push(added));
                return nothing();
            }
            if sign == '-' && at < self.batches.len() {
                let ghost start = self.batches@;
                let batch = self.batches.remove(at);
                assert(batches_of(self.batches@) =~= batches_of(start).remove(at as int));
                return match batch.said {
                    Some(said) => {
                        if said.notice {
                            self.on_notice(
                                said.sender.as_str(),
                                said.target.as_str(),
                                said.text.as_str(),
                            )
                        } else {
                            self.on_privmsg(
                                our_nick,
                                said.sender.as_str(),
                                said.target.as_str(),
                                said.text.as_str(),
                                now,
                            )
                        }
                    },
                    None => nothing(),
                };
            }
        }
        only(self.line_action(SERVER_TARGET, display_raw(message)))
    }

    /// Takes in a message of the server, at the time `now`, and says what to show and what to
    /// send, in order.
    pub fn route_at(&mut self, our_nick: &str, message: &Message, now: &str) -> (out: Vec<Action>)
        requires
            old(self).wf(),
        ensures
            final(self).wf(),
            (final(self)@, actions(out@)) == old(self)@.after(our_nick@, *message, now@),
            old(self)@.answers_ascii(*message, now@, actions(out@)),
    {
        let sender = message.sender();
        match &message.command {
            Command::Privmsg { target, text } => match self.batch_for(message) {
                Some(at) => {
                    self.add_line(at, message, target.as_str(), text.as_str(), false);
                    nothing()
                },
                None => self.on_privmsg(
                    our_nick,
                    sender.as_str(),
                    target.as_str(),
                    text.as_str(),
                    now,
                ),
            },
            Command::Notice { target, text } => match self.batch_for(message) {
                Some(at) => {
                    self.add_line(at, message, target.as_str(), text.as_str(), true);
                    nothing()
                },
                None => self.on_notice(sender.as_str(), target.as_str(), text.as_str()),
            },
            Command::Batch { reference, kind } => self.on_batch(
                our_nick,
                message,
                reference,
                kind,
                now,
            ),
            _ => {
                let mut out = self.note(our_nick, message);
                let silent = match &message.command {
                    Command::Reply { code, .. } => *code == 353 || *code == 366,
                    _ => false,
                };
                if !silent {
                    let (target, text) = self.line_for(message);
                    let line = self.line_action(target.as_str(), text);
                    proof {
                        lemma_actions_push(out@, line);
                    }
                    out.push(line);
                }
                out
            },
        }
    }

    /// The CTCP request that is complete with `message`.
    fn request_for(&self, message: &Message) -> (ctcp: Option<String>)
        ensures
            match self@.request_in(*message) {
                Some((_, body)) => optional(ctcp) == Some(body),
                None => ctcp is None,
            },
    {
        match &message.command {
            Command::Privmsg { text, .. } => match self.batch_for(message) {
                Some(_) => None,
                None => request_text(text.as_str()),
            },
            Command::Batch { reference, .. } => {
                let n: usize = reference.as_str().unicode_len();
                if n == 0 || reference.as_str().get_char(0) != '-' {
                    return None;
                }
                let name = reference.as_str().substring_char(1, n);
                assert(name@ =~= reference@.skip(1));
                let at: usize = self.find_batch(name);
                if at >= self.batches.len() {
                    return None;
                }
                match &self.batches[at].said {
                    Some(said) => if said.notice {
                        None
                    } else {
                        request_text(said.text.as_str())
                    },
                    None => None,
                }
            },
            _ => None,
        }
    }

    /// Takes in a message of the server and says what to show and what to send, in order. The
    /// clock is read only where somebody asks for the time.
    pub fn route_incoming(&mut self, our_nick: &str, message: &Message) -> (out: Vec<Action>)
        requires
            old(self).wf(),
        ensures
            final(self).wf(),
            exists|now: Seq<char>|
                is_date_and_time(now) && (final(self)@, actions(out@))
                    == #[trigger] old(self)@.after(our_nick@, *message, now)
                    && old(self)@.answers_ascii(*message, now, actions(out@)),
    {
        let asks = match self.request_for(message) {
            Some(ctcp) => asks_for_time(ctcp.as_str()),
            None => false,
        };
        if asks {
            let now = local_date_and_time();
            self.route_at(our_nick, message, now.as_str())
        } else {
            let out = self.route_at(our_nick, message, "");
            proof {
                lemma_date_and_time();
                let now = "Thu, 1 Jan 1970 00:00:00 +0000"@;
                lemma_time_is_for_those_who_ask(old(self)@, our_nick@, *message, ""@, now);
            }
            out
        }
    }
}

} // verus!
