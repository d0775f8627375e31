//! Answers to CTCP requests.

use crate::clock::{is_date_and_time, lemma_date_and_time, local_date_and_time};
use crate::letter_case::{
    ascii_upper, is_ascii_text, uppercase, uppercase_text,
};
use crate::message::optional;
use crate::text::{
    after, before, blanked, cat, cat3, head_of, is_white, lemma_first_at, lemma_not_blank,
    lemma_split_joined, lemma_trim_end_concat, replaced, same, tail_of, trim_end, trimmed_end,
};
use crate::text_laws::law_blank_ends_are_trimmed;
use vstd::prelude::*;

verus! {

/// The version that the client gives of itself.
pub const VERSION: &'static str = "0.1.0";

/// The character that stands at both ends of a CTCP message.
pub const DELIMITER: char = '\u{1}';

/// The answer to a request of the command `command`, in capital letters, with the payload
/// `args`, at the time `now`. A ping is answered with its payload; a request that is not
/// known has no answer.
pub open spec fn answer(command: Seq<char>, args: Seq<char>, now: Seq<char>) -> Option<Seq<char>> {
    if command == "PING"@ {
        Some(trim_end("PING "@ + args))
    } else if command == "VERSION"@ {
        Some("VERSION squawkline "@ + VERSION@)
    } else if command == "TIME"@ {
        Some("TIME "@ + now)
    } else if command == "CLIENTINFO"@ {
        Some("CLIENTINFO PING VERSION TIME CLIENTINFO SOURCE"@)
    } else if command == "SOURCE"@ {
        Some("SOURCE https://github.com/example/squawkline"@)
    } else {
        None
    }
}

/// The answer to the request `ctcp`, whose command and payload the first blank parts.
pub open spec fn answer_to(ctcp: Seq<char>, now: Seq<char>) -> Option<Seq<char>> {
    answer(uppercase_text(before(ctcp, ' ')), after(ctcp, ' '), now)
}

/// Whether the command of the request `ctcp` is in ASCII characters.
pub open spec fn has_ascii_command(ctcp: Seq<char>) -> bool {
    is_ascii_text(before(ctcp, ' '))
}

/// The answer to the request `ctcp`, where its command is in ASCII characters: the command is
/// known by its capital letters.
pub open spec fn ascii_answer_to(ctcp: Seq<char>, now: Seq<char>) -> Option<Seq<char>> {
    answer(before(ctcp, ' ').map_values(|c: char| ascii_upper(c)), after(ctcp, ' '), now)
}

/// The answer to a request of the command `command`, in capital letters.
pub fn reply(command: &str, args: &str, now: &str) -> (body: Option<String>)
    ensures
        optional(body) == answer(command@, args@, now@),
{
    if same(command, "PING") {
        Some(trimmed_end(cat("PING ", args).as_str()))
    } else if same(command, "VERSION") {
        Some(cat("VERSION squawkline ", VERSION))
    } else if same(command, "TIME") {
        Some(cat("TIME ", now))
    } else if same(command, "CLIENTINFO") {
        Some("CLIENTINFO PING VERSION TIME CLIENTINFO SOURCE".to_owned())
    } else if same(command, "SOURCE") {
        Some("SOURCE https://github.com/example/squawkline".to_owned())
    } else {
        None
    }
}

/// The answer to the request `ctcp` at the time `now`.
pub fn reply_at(ctcp: &str, now: &str) -> (body: Option<String>)
    ensures
        optional(body) == answer_to(ctcp@, now@),
        has_ascii_command(ctcp@) ==> optional(body) == ascii_answer_to(ctcp@, now@),
{
    let command = uppercase(head_of(ctcp, ' ').as_str());
    let args = tail_of(ctcp, ' ');
    reply(command.as_str(), args.as_str(), now)
}

/// Whether the request `ctcp` asks for the time.
pub fn asks_for_time(ctcp: &str) -> (asks: bool)
    ensures
        asks == (uppercase_text(before(ctcp@, ' ')) == "TIME"@),
        has_ascii_command(ctcp@) ==> asks == (before(ctcp@, ' ').map_values(
            |c: char| ascii_upper(c),
        ) == "TIME"@),
{
    same(uppercase(head_of(ctcp, ' ').as_str()).as_str(), "TIME")
}

/// The answer to the request `ctcp`, at the time at which it is given. The clock is read only
/// where the request asks for the time.
pub fn ctcp_reply(ctcp: &str) -> (body: Option<String>)
    ensures
        exists|now: Seq<char>|
            is_date_and_time(now) && optional(body) == #[trigger] answer_to(ctcp@, now) && (
            has_ascii_command(ctcp@) ==> optional(body) == ascii_answer_to(ctcp@, now)),
{
    if asks_for_time(ctcp) {
        let now = local_date_and_time();
        reply_at(ctcp, now.as_str())
    } else {
        let body = reply_at(ctcp, "");
        proof {
            lemma_date_and_time();
            let now = "Thu, 1 Jan 1970 00:00:00 +0000"@;
            assert(optional(body) == answer_to(ctcp@, now));
        }
        body
    }
}

/// `body` as a CTCP message: between two delimiters, with a blank in the place of each
/// delimiter that it holds itself.
pub open spec fn delimited(body: Seq<char>) -> Seq<char> {
    seq![DELIMITER] + replaced(body, DELIMITER, ' ') + seq![DELIMITER]
}

/// `body` as a CTCP message.
pub fn enclose(body: &str) -> (message: String)
    ensures
        message@ == delimited(body@),
{
    proof {
        reveal_strlit("\u{1}");
        assert("\u{1}"@ =~= seq![DELIMITER]);
    }
    cat3("\u{1}", blanked(body, DELIMITER).as_str(), "\u{1}")
}

/// However a request was made, its answer is sent with a delimiter at either end and none
/// between them.
pub proof fn law_delimiters_only_at_the_ends(body: Seq<char>)
    ensures
        delimited(body).len() == body.len() + 2,
        delimited(body)[0] == DELIMITER,
        delimited(body).last() == DELIMITER,
        forall|i: int|
            0 < i < delimited(body).len() - 1 ==> #[trigger] delimited(body)[i] != DELIMITER,
{
}

/// The command of every answer but the list itself is in the list that `CLIENTINFO` gives,
/// and so is `CLIENTINFO`: a request has an answer if and only if its command is one of the
/// five, and the answer starts with that command.
pub proof fn law_known_commands(ctcp: Seq<char>, now: Seq<char>)
    ensures
        ({
            let command = uppercase_text(before(ctcp, ' '));
            &&& answer_to(ctcp, now) is Some <==> (command == "PING"@ || command == "VERSION"@
                || command == "TIME"@ || command == "CLIENTINFO"@ || command == "SOURCE"@)
            &&& answer_to(ctcp, now) matches Some(body) ==> body.len() >= command.len()
                && body.take(command.len() as int) == command
        }),
{
    reveal_strlit("PING");
    reveal_strlit("PING ");
    reveal_strlit("VERSION");
    reveal_strlit("VERSION squawkline ");
    reveal_strlit("TIME");
    reveal_strlit("TIME ");
    reveal_strlit("CLIENTINFO");
    reveal_strlit("CLIENTINFO PING VERSION TIME CLIENTINFO SOURCE");
    reveal_strlit("SOURCE");
    reveal_strlit("SOURCE https://github.com/example/squawkline");
    let command = uppercase_text(before(ctcp, ' '));
    let args = after(ctcp, ' ');
    lemma_not_blank(seq!['G', ' '] + args);
    lemma_trim_end_concat(seq!['P', 'I', 'N'], seq!['G', ' '] + args);
    assert(seq!['P', 'I', 'N'] + (seq!['G', ' '] + args) =~= "PING "@ + args);
    if let Some(body) = answer_to(ctcp, now) {
        assert(body.take(command.len() as int) =~= command);
    }
}

/// The command of a request ends at the first blank, and all that follows is its payload: the
/// answer depends on the capital letters of the command alone, but for a ping, which is given
/// its payload back, and for the time.
pub proof fn law_requests_are_told_by_their_command(
    command: Seq<char>,
    args: Seq<char>,
    now: Seq<char>,
)
    requires
        !command.contains(' '),
    ensures
        ({
            let capital = uppercase_text(command);
            let with_args = answer_to(command + seq![' '] + args, now);
            let alone = answer_to(command, now);
            &&& capital == "PING"@ ==> with_args == Some(trim_end("PING "@ + args)) && alone
                == Some(trim_end("PING "@))
            &&& capital == "VERSION"@ ==> with_args == Some("VERSION squawkline 0.1.0"@) && alone
                == with_args
            &&& capital == "TIME"@ ==> with_args == Some("TIME "@ + now) && alone == with_args
            &&& capital == "CLIENTINFO"@ ==> with_args == Some(
                "CLIENTINFO PING VERSION TIME CLIENTINFO SOURCE"@,
            ) && alone == with_args
            &&& capital == "SOURCE"@ ==> with_args == Some(
                "SOURCE https://github.com/example/squawkline"@,
            ) && alone == with_args
            &&& capital != "PING"@ && capital != "VERSION"@ && capital != "TIME"@ && capital
                != "CLIENTINFO"@ && capital != "SOURCE"@ ==> with_args is None && alone is None
        }),
{
    lemma_split_joined(command, ' ', args);
    lemma_first_at(command, ' ');
    assert(before(command, ' ') =~= command);
    assert("PING "@ + Seq::<char>::empty() =~= "PING "@);
    reveal_strlit("PING");
    reveal_strlit("VERSION");
    reveal_strlit("TIME");
    reveal_strlit("CLIENTINFO");
    reveal_strlit("SOURCE");
    reveal_strlit("VERSION squawkline ");
    reveal_strlit("0.1.0");
    reveal_strlit("VERSION squawkline 0.1.0");
    assert("VERSION squawkline "@ + "0.1.0"@ =~= "VERSION squawkline 0.1.0"@);
    assert("PING"@[0] == 'P' && "VERSION"@[0] == 'V' && "TIME"@[0] == 'T');
    assert("CLIENTINFO"@[0] == 'C' && "SOURCE"@[0] == 'S');
}

/// A ping is given back its payload, character by character.
pub proof fn law_pings_come_back(command: Seq<char>, args: Seq<char>, now: Seq<char>)
    requires
        uppercase_text(command) == "PING"@,
        !command.contains(' '),
        args.len() > 0,
        !is_white(args.last()),
    ensures
        answer_to(command + seq![' '] + args, now) == Some("PING "@ + args),
{
    law_requests_are_told_by_their_command(command, args, now);
    law_blank_ends_are_trimmed("PING "@ + args, Seq::empty());
    assert("PING "@ + args + Seq::<char>::empty() =~= "PING "@ + args);
}

/// An answer is sent as it is but for delimiters, each of which is a blank.
pub proof fn law_answers_are_sent_as_they_are(body: Seq<char>, i: int)
    requires
        0 <= i < body.len(),
    ensures
        delimited(body).len() == body.len() + 2,
        delimited(body)[0] == '\u{1}',
        delimited(body)[body.len() as int + 1] == '\u{1}',
        body[i] != '\u{1}' ==> delimited(body)[i + 1] == body[i],
        body[i] == '\u{1}' ==> delimited(body)[i + 1] == ' ',
{
}

} // verus!
