//! Messages as an IRC server sends them, and the text by which one is shown as it came.

use crate::text::{
    after, lemma_split_joined, lemma_trim_end_concat, split_once, trim_end, trimmed_end,
};
use vstd::prelude::*;

verus! {

/// A message tag: its key, and its value where it has one.
pub struct Tag {
    pub key: String,
    pub value: Option<String>,
}

/// Where a message comes from.
pub enum Prefix {
    ServerName(String),
    /// Nickname, user name and host name; any of them may be empty.
    Nickname(String, String, String),
}

/// The capability subcommands that a server sends.
#[derive(Clone, Copy, PartialEq, Eq, Structural)]
pub enum CapKind {
    Ls,
    Ack,
    Nak,
    New,
    Del,
    Other,
}

/// What a message says, as far as the client tells messages apart.
pub enum Command {
    Privmsg { target: String, text: String },
    Notice { target: String, text: String },
    /// The account and the real name come only with `extended-join`.
    Join { channel: String, account: Option<String>, realname: Option<String> },
    Part { channel: String, reason: Option<String> },
    Kick { channel: String, nick: String, reason: Option<String> },
    Quit { reason: Option<String> },
    Nick { nick: String },
    Away { reason: Option<String> },
    /// The two parameters that may follow the subcommand.
    Cap { sub: CapKind, first: Option<String>, second: Option<String> },
    Authenticate { data: String },
    /// The reference with its sign, and the type of a batch.
    Batch { reference: String, kind: Option<String> },
    /// A numeric reply.
    Reply { code: u16, args: Vec<String> },
    /// A command or a reply that has no form of its own.
    Raw { name: String, args: Vec<String> },
    Other,
}

/// A message from a server.
pub struct Message {
    pub tags: Option<Vec<Tag>>,
    pub prefix: Option<Prefix>,
    pub command: Command,
    /// The command with its parameters in wire form, without the end of the line.
    pub wire: String,
}

/// The text of an optional string.
pub open spec fn optional(text: Option<String>) -> Option<Seq<char>> {
    match text {
        Some(s) => Some(s@),
        None => None,
    }
}

/// Keys and values of tags.
pub open spec fn tag_texts(tags: Option<Vec<Tag>>) -> Option<
    Seq<(Seq<char>, Option<Seq<char>>)>,
> {
    match tags {
        Some(list) => Some(
            Seq::new(list@.len(), |i: int| (list@[i].key@, optional(list@[i].value))),
        ),
        None => None,
    }
}

/// The parts of a prefix: the server name alone, or nickname, user name and host name.
pub open spec fn prefix_parts(prefix: Option<Prefix>) -> Option<Seq<Seq<char>>> {
    match prefix {
        Some(Prefix::ServerName(name)) => Some(seq![name@]),
        Some(Prefix::Nickname(nick, user, host)) => Some(seq![nick@, user@, host@]),
        None => None,
    }
}

/// `mark` and `part`, or nothing where `part` is empty.
pub open spec fn marked(mark: char, part: Seq<char>) -> Seq<char> {
    if part.len() == 0 {
        Seq::empty()
    } else {
        seq![mark] + part
    }
}

/// A prefix in wire form.
pub open spec fn prefix_text(prefix: Prefix) -> Seq<char> {
    match prefix {
        Prefix::ServerName(name) => name@,
        Prefix::Nickname(nick, user, host) => nick@ + marked('!', user@) + marked('@', host@),
    }
}

/// A message without tags in wire form, up to and with the end of the line.
pub open spec fn untagged_text(prefix: Option<Prefix>, command: Seq<char>) -> Seq<char> {
    match prefix {
        Some(p) => seq![':'] + prefix_text(p) + seq![' '] + command + seq!['\r', '\n'],
        None => command + seq!['\r', '\n'],
    }
}

/// `rest` behind a section of tags.
pub open spec fn tagged_text(tags: Seq<char>, rest: Seq<char>) -> Seq<char> {
    seq!['@'] + tags + seq![' '] + rest
}

/// `line` is `rest` behind a section of tags, which holds no blank where `unbroken`.
pub open spec fn stands_behind_tags(line: Seq<char>, rest: Seq<char>, unbroken: bool) -> bool {
    exists|section: Seq<char>| #[trigger]
        tagged_text(section, rest) == line && (unbroken ==> !section.contains(' '))
}

/// No key of a tag holds a blank.
pub open spec fn keys_unbroken(tags: Option<Vec<Tag>>) -> bool {
    match tags {
        Some(list) => forall|i: int| 0 <= i < list@.len() ==> !(#[trigger] list@[i]).key@.contains(' '),
        None => true,
    }
}

/// What `irc::proto::Message::to_string` gives for a message of these tags, of a prefix of
/// these parts, and of this command in wire form.
pub uninterp spec fn message_text(
    tags: Option<Seq<(Seq<char>, Option<Seq<char>>)>>,
    prefix: Option<Seq<Seq<char>>>,
    command: Seq<char>,
) -> Seq<char>;

/// Calls `irc::proto::Message::to_string` on the message of the given parts. The command is
/// handed over as `Command::Raw` without arguments, which is written out as it is.
///
/// Believed of the outside function: its result depends on nothing else. Without tags it is
/// the prefix between `:` and a blank, where there is a prefix, then the command, then a
/// carriage return and a line feed. With tags the same text stands behind `@`, the section of
/// tags and a blank. In that section the values of tags are escaped, so a blank in it can only
/// come from a key.
#[verifier::external_body]
fn wire_text(tags: &Option<Vec<Tag>>, prefix: &Option<Prefix>, command: &str) -> (line: String)
    ensures
        line@ == message_text(tag_texts(*tags), prefix_parts(*prefix), command@),
        tags is None ==> line@ == untagged_text(*prefix, command@),
        tags is Some ==> stands_behind_tags(
            line@,
            untagged_text(*prefix, command@),
            keys_unbroken(*tags),
        ),
{
    let tag = |t: &Tag| irc::proto::message::Tag(t.key.clone(), t.value.clone());
    irc::proto::Message {
        tags: tags.as_ref().map(|list| list.iter().map(tag).collect()),
        prefix: prefix.as_ref().map(|p| match p {
            Prefix::ServerName(s) => irc::proto::Prefix::ServerName(s.clone()),
            Prefix::Nickname(n, u, h) => irc::proto::Prefix::Nickname(n.clone(), u.clone(), h.clone()),
        }),
        command: irc::proto::Command::Raw(command.to_owned(), Vec::new()),
    }.to_string()
}

/// A line in wire form as it is shown: without white space at its end, and without the
/// section of tags that it may start with.
pub open spec fn without_tags(line: Seq<char>) -> Seq<char> {
    let kept = trim_end(line);
    if kept.len() > 0 && kept[0] == '@' && kept.skip(1).contains(' ') {
        after(kept.skip(1), ' ')
    } else {
        kept
    }
}

/// A line in wire form as it is shown.
pub fn strip_tags(line: &str) -> (shown: String)
    ensures
        shown@ == without_tags(line@),
{
    let kept = trimmed_end(line);
    let n: usize = kept.as_str().unicode_len();
    if n > 0 && kept.as_str().get_char(0) == '@' {
        let behind = kept.as_str().substring_char(1, n);
        assert(behind@ =~= kept@.skip(1));
        match split_once(behind, ' ') {
            Some((_, rest)) => rest,
            None => kept,
        }
    } else {
        kept
    }
}

/// How `message` is shown as it came.
pub open spec fn raw_text(message: Message) -> Seq<char> {
    without_tags(
        message_text(tag_texts(message.tags), prefix_parts(message.prefix), message.wire@),
    )
}

/// The text of `message` without its tags is not blank and does not begin with `@`.
pub open spec fn begins_plainly(message: Message) -> bool {
    let rest = untagged_text(message.prefix, message.wire@);
    trim_end(rest).len() > 0 && rest[0] != '@'
}

/// `message` as one line of text, as it came but without its tags.
///
/// Whatever tags there are, what is shown is the message without them, up to white space at
/// its end. It needs keys without blanks, and a message that is not blank and does not itself
/// begin like a section of tags.
pub fn display_raw(message: &Message) -> (shown: String)
    ensures
        shown@ == raw_text(*message),
        keys_unbroken(message.tags) && begins_plainly(*message) ==> shown@ == trim_end(
            untagged_text(message.prefix, message.wire@),
        ),
{
    let line = wire_text(&message.tags, &message.prefix, message.wire.as_str());
    proof {
        let rest = untagged_text(message.prefix, message.wire@);
        if keys_unbroken(message.tags) && begins_plainly(*message) {
            if message.tags is Some {
                let section = choose|section: Seq<char>| #[trigger]
                    tagged_text(section, rest) == line@ && !section.contains(' ');
                let head = seq!['@'] + section + seq![' '];
                lemma_trim_end_concat(head, rest);
                let kept = trim_end(line@);
                let shown = trim_end(rest);
                assert(kept == head + shown);
                assert(kept.skip(1) =~= section + seq![' '] + shown);
                lemma_split_joined(section, ' ', shown);
            } else {
                lemma_trim_end_concat(Seq::empty(), rest);
                assert(trim_end(line@)[0] == rest[0]);
            }
        }
    }
    strip_tags(line.as_str())
}

/// The nickname that `message` comes from, where it comes from one.
pub open spec fn source_of(message: Message) -> Option<Seq<char>> {
    match message.prefix {
        Some(Prefix::Nickname(nick, _, _)) => Some(nick@),
        _ => None,
    }
}

/// Who `message` is said to come from: a question mark where no nickname is given.
pub open spec fn sender_of(message: Message) -> Seq<char> {
    match source_of(message) {
        Some(nick) => nick,
        None => seq!['?'],
    }
}

impl Message {
    /// The nickname that the message comes from, where it comes from one.
    pub fn source_nickname(&self) -> (nick: Option<String>)
        ensures
            optional(nick) == source_of(*self),
    {
        match &self.prefix {
            Some(Prefix::Nickname(nick, _, _)) => Some(nick.clone()),
            _ => None,
        }
    }

    /// Who the message is said to come from.
    pub fn sender(&self) -> (sender: String)
        ensures
            sender@ == sender_of(*self),
    {
        match self.source_nickname() {
            Some(nick) => nick,
            None => {
                proof {
                    reveal_strlit("?");
                }
                assert("?"@ =~= seq!['?']);
                "?".to_owned()
            },
        }
    }
}

/// Whom a message comes from is the nickname that it gives; a server, or nobody, is none.
pub proof fn law_senders_are_nicknames(message: Message)
    ensures
        message.prefix matches Some(Prefix::Nickname(nick, _, _)) ==> sender_of(message) == nick@
            && source_of(message) == Some(nick@),
        message.prefix matches Some(Prefix::ServerName(_)) ==> sender_of(message) == seq!['?']
            && source_of(message) is None,
        message.prefix is None ==> sender_of(message) == seq!['?'] && source_of(message) is None,
{
}

/// A section of tags before a line is taken off, up to the first blank, and the line is shown
/// whole but for white space at its end.
pub proof fn law_a_section_of_tags_is_taken_off(section: Seq<char>, rest: Seq<char>)
    requires
        !section.contains(' '),
        trim_end(rest).len() > 0,
    ensures
        without_tags(seq!['@'] + section + seq![' '] + rest) == trim_end(rest),
{
    let head = seq!['@'] + section + seq![' '];
    lemma_trim_end_concat(head, rest);
    let kept = trim_end(head + rest);
    assert(kept.skip(1) =~= section + seq![' '] + trim_end(rest));
    lemma_split_joined(section, ' ', trim_end(rest));
}

/// A line that does not begin with tags is shown whole but for white space at its end.
pub proof fn law_a_line_without_tags_is_whole(line: Seq<char>)
    requires
        trim_end(line).len() == 0 || trim_end(line)[0] != '@' || !trim_end(line).skip(1).contains(
            ' ',
        ),
    ensures
        without_tags(line) == trim_end(line),
{
}

/// What is shown of a message as it came is its own wire form, tags taken off: no part of it is
/// left out before.
pub proof fn law_messages_are_shown_from_their_wire_form(message: Message)
    ensures
        raw_text(message) == without_tags(
            message_text(tag_texts(message.tags), prefix_parts(message.prefix), message.wire@),
        ),
{
}

} // verus!
