//! What a negotiation is for: what is asked for, who is let in, and what is shown.

use crate::caps::{
    among, law_offered_is_requested, law_only_offered_is_requested,
    law_sasl_is_requested_where_it_is_of_use, name_of, offered_names, to_request, wanted_always,
    Capability,
};
use crate::message::{optional, raw_text, CapKind, Command, Message};
use crate::negotiate::{NegotiationView, Phase, ReactionView, Turn};
use crate::sasl::base64_text;
use crate::text::{before, join, texts, words_of};
use vstd::prelude::*;
use vstd::utf8::encode_utf8;

verus! {

/// Whether `list` names the capability `name`: with a word that is this name, or this name with
/// an equals sign and a value behind it.
pub open spec fn is_named(list: Seq<char>, name: Seq<char>) -> bool {
    exists|j: int|
        0 <= j < words_of(list).len() && before(#[trigger] words_of(list)[j], '=') == name
}

/// Whether any of `lists` names the capability `name`.
pub open spec fn is_named_in_any(lists: Seq<Seq<char>>, name: Seq<char>) -> bool {
    exists|i: int| 0 <= i < lists.len() && is_named(#[trigger] lists[i], name)
}

/// `message` lists capabilities, and more of them follow.
pub open spec fn lists_some(message: Message, list: Seq<char>) -> bool {
    message.command matches Command::Cap { sub: CapKind::Ls, first, second } && optional(first)
        == Some("*"@) && optional(second) == Some(list)
}

/// `message` lists capabilities, and no more of them follow.
pub open spec fn lists_the_last(message: Message, list: Seq<char>) -> bool {
    message.command matches Command::Cap { sub: CapKind::Ls, first, second } && optional(first)
        == Some(list) && second is None
}

/// The name of a listed capability is what a word of the list names.
proof fn lemma_offered_is_named(list: Seq<char>, name: Seq<char>)
    ensures
        offered_names(list).contains(name) <==> is_named(list, name),
{
    let names = offered_names(list);
    if names.contains(name) {
        let j = choose|j: int| 0 <= j < names.len() && names[j] == name;
        assert(before(words_of(list)[j], '=') == name);
    }
    if is_named(list, name) {
        let j = choose|j: int|
            0 <= j < words_of(list).len() && before(#[trigger] words_of(list)[j], '=') == name;
        assert(names[j] == name);
    }
}

/// What is in one of two lists is in both together.
proof fn lemma_either(a: Seq<Seq<char>>, b: Seq<Seq<char>>, x: Seq<char>)
    ensures
        (a + b).contains(x) <==> a.contains(x) || b.contains(x),
{
    if (a + b).contains(x) {
        let i = choose|i: int| 0 <= i < (a + b).len() && (a + b)[i] == x;
        if i < a.len() {
            assert(a[i] == x);
        } else {
            assert(b[i - a.len()] == x);
        }
    }
    if a.contains(x) {
        let i = choose|i: int| 0 <= i < a.len() && a[i] == x;
        assert((a + b)[i] == x);
    }
    if b.contains(x) {
        let i = choose|i: int| 0 <= i < b.len() && b[i] == x;
        assert((a + b)[a.len() + i] == x);
    }
}

/// A negotiation begins with a list of nothing, asks for nothing and has nothing granted.
pub proof fn law_a_negotiation_begins_with_nothing(
    account: Seq<char>,
    password: Option<Seq<char>>,
)
    ensures
        ({
            let begun = NegotiationView::begun(account, password);
            &&& begun.account == account
            &&& begun.password == password
            &&& begun.phase == Phase::Listing
            &&& begun.offered == Seq::<Seq<char>>::empty()
            &&& begun.granted == Seq::<Seq<char>>::empty()
            &&& !begun.sasl
        }),
{
}

/// Account and password never change, and what is granted changes only when the server
/// acknowledges a list.
pub proof fn law_credentials_stay(negotiation: NegotiationView, turn: Turn)
    ensures
        ({
            let next = negotiation.turned(turn).0;
            &&& next.account == negotiation.account
            &&& next.password == negotiation.password
            &&& negotiation.phase != Phase::Requested ==> next.granted == negotiation.granted
            &&& negotiation.phase != Phase::Listing ==> next.offered == negotiation.offered
                && next.sasl == negotiation.sasl
        }),
{
}

/// What a request for capabilities holds, where `offered` are offered.
proof fn lemma_what_is_requested(offered: Seq<Seq<char>>, sasl: bool, c: Capability)
    ensures
        to_request(offered, sasl).contains(c) <==> (wanted_always().contains(c)
            && offered.contains(name_of(c))) || (c == Capability::Sasl && sasl
            && offered.contains("sasl"@)),
{
    let all = to_request(offered, sasl);
    let keep = |x: Capability| offered.contains(name_of(x));
    law_sasl_is_requested_where_it_is_of_use(offered, sasl);
    if wanted_always().contains(c) && offered.contains(name_of(c)) {
        let k = choose|k: int| 0 <= k < wanted_always().len() && wanted_always()[k] == c;
        law_offered_is_requested(offered, sasl, k);
    }
    if all.contains(c) && c != Capability::Sasl {
        let i = choose|i: int| 0 <= i < all.len() && all[i] == c;
        law_only_offered_is_requested(offered, sasl, i);
        let list = among(wanted_always(), offered);
        assert(i < list.len());
        assert(list.contains(list[i]));
        wanted_always().lemma_filter_contains_rev(keep, c);
    }
}

/// One message that lists capabilities. What it names is offered besides what was offered
/// before. As long as more follow, nothing is asked for; once the list is complete, exactly
/// what is wanted and offered is, `sasl` with a password alone. Where that is nothing, the
/// negotiation is over.
pub proof fn law_a_list_is_taken_in(
    negotiation: NegotiationView,
    message: Message,
    list: Seq<char>,
    name: Seq<char>,
    c: Capability,
)
    requires
        negotiation.phase == Phase::Listing,
        lists_some(message, list) || lists_the_last(message, list),
    ensures
        ({
            let (next, reaction) = negotiation.after(message);
            let can_authenticate = negotiation.password is Some;
            let wants = (wanted_always().contains(c) && next.offered.contains(name_of(c))) || (c
                == Capability::Sasl && can_authenticate && next.offered.contains("sasl"@));
            &&& next.offered.contains(name) <==> negotiation.offered.contains(name) || is_named(
                list,
                name,
            )
            &&& lists_some(message, list) ==> reaction is Nothing && next.phase == Phase::Listing
                && next.sasl == negotiation.sasl
            &&& lists_the_last(message, list) ==> {
                &&& wants <==> (reaction is Request && reaction->Request_0.contains(c))
                &&& reaction is Request ==> {
                    &&& next.phase == Phase::Requested
                    &&& next.sasl == (can_authenticate && next.offered.contains("sasl"@))
                    &&& reaction->Request_0 == to_request(next.offered, can_authenticate)
                }
                &&& !(reaction is Request) ==> reaction is Nothing && next.phase
                    == Phase::Finished
            }
        }),
{
    let next = negotiation.after(message).0;
    lemma_offered_is_named(list, name);
    lemma_either(negotiation.offered, offered_names(list), name);
    lemma_what_is_requested(next.offered, negotiation.password is Some, c);
    let wanted = to_request(next.offered, negotiation.password is Some);
    if wanted.len() == 0 {
        assert(!wanted.contains(c));
    }
}

/// A message that should list capabilities and has another form lists none, and ends the list.
pub proof fn law_a_broken_list_is_empty(negotiation: NegotiationView, message: Message)
    requires
        negotiation.phase == Phase::Listing,
        message.command matches Command::Cap { sub: CapKind::Ls, first, second } && (first is None
            || (second is Some && optional(first) != Some("*"@))),
    ensures
        ({
            let (next, reaction) = negotiation.after(message);
            let wanted = to_request(negotiation.offered, negotiation.password is Some);
            &&& next.offered == negotiation.offered
            &&& next.phase != Phase::Listing
            &&& wanted.len() > 0 ==> reaction == ReactionView::Request(wanted)
            &&& wanted.len() == 0 ==> reaction is Nothing && next.phase == Phase::Finished
        }),
{
    assert(offered_names(Seq::empty()) =~= Seq::empty());
    assert(negotiation.offered + Seq::<Seq<char>>::empty() =~= negotiation.offered);
}

/// The turns that `messages` are.
pub open spec fn came(messages: Seq<Message>) -> Seq<Turn> {
    messages.map_values(|message: Message| Turn::Came(message))
}

/// What the parts of a list offer.
proof fn lemma_parts(
    account: Seq<char>,
    password: Option<Seq<char>>,
    parts: Seq<Seq<char>>,
    messages: Seq<Message>,
    name: Seq<char>,
)
    requires
        messages.len() == parts.len(),
        forall|i: int| 0 <= i < messages.len() ==> lists_some(#[trigger] messages[i], parts[i]),
    ensures
        ({
            let (now, said) = NegotiationView::begun(account, password).over(came(messages));
            &&& now.phase == Phase::Listing
            &&& now.password == password
            &&& now.offered.contains(name) <==> is_named_in_any(parts, name)
            &&& said.len() == messages.len()
            &&& forall|i: int| 0 <= i < said.len() ==> (#[trigger] said[i]) is Nothing
        }),
    decreases parts.len(),
{
    let start = NegotiationView::begun(account, password);
    if parts.len() > 0 {
        let fewer = parts.drop_last();
        let earlier = messages.drop_last();
        assert forall|i: int| 0 <= i < earlier.len() implies lists_some(
            #[trigger] earlier[i],
            fewer[i],
        ) by {
            assert(lists_some(messages[i], parts[i]));
        }
        lemma_parts(account, password, fewer, earlier, name);
        assert(came(messages).drop_last() =~= came(earlier));
        assert(came(messages).last() == Turn::Came(messages.last()));
        let (was, before_it) = start.over(came(earlier));
        assert(lists_some(messages[messages.len() - 1], parts[parts.len() - 1]));
        law_a_list_is_taken_in(was, messages.last(), parts.last(), name, Capability::Sasl);
        let said = start.over(came(messages)).1;
        assert forall|i: int| 0 <= i < said.len() implies (#[trigger] said[i]) is Nothing by {
            if i < before_it.len() {
                assert(said[i] == before_it[i]);
            }
        }
        if is_named_in_any(parts, name) {
            let i = choose|i: int| 0 <= i < parts.len() && is_named(#[trigger] parts[i], name);
            if i < fewer.len() {
                assert(is_named(fewer[i], name));
            }
        }
        if is_named_in_any(fewer, name) {
            let i = choose|i: int| 0 <= i < fewer.len() && is_named(#[trigger] fewer[i], name);
            assert(is_named(parts[i], name));
        }
        if is_named(parts.last(), name) {
            assert(is_named(parts[parts.len() - 1], name));
        }
    } else {
        assert(came(messages) =~= Seq::<Turn>::empty());
    }
}

/// However many messages the list of what is offered comes in: once it is complete, every
/// capability is asked for that is wanted and that any part of the list names, `sasl` wherever
/// it is named and a password is at hand, and nothing else. Where that is nothing, nothing is
/// sent and the negotiation is over. Before the list is complete, nothing is sent.
pub proof fn law_all_that_is_wanted_is_asked_for(
    account: Seq<char>,
    password: Option<Seq<char>>,
    parts: Seq<Seq<char>>,
    messages: Seq<Message>,
    last: Seq<char>,
    closing: Message,
    c: Capability,
)
    requires
        messages.len() == parts.len(),
        forall|i: int| 0 <= i < messages.len() ==> lists_some(#[trigger] messages[i], parts[i]),
        lists_the_last(closing, last),
    ensures
        ({
            let all = parts.push(last);
            let (next, said) = NegotiationView::begun(account, password).over(
                came(messages.push(closing)),
            );
            let reaction = said.last();
            let wants = (wanted_always().contains(c) && is_named_in_any(all, name_of(c))) || (c
                == Capability::Sasl && password is Some && is_named_in_any(all, "sasl"@));
            &&& wants <==> (reaction is Request && reaction->Request_0.contains(c))
            &&& reaction is Request ==> next.phase == Phase::Requested
            &&& !(reaction is Request) ==> reaction is Nothing && next.phase == Phase::Finished
            &&& forall|i: int| 0 <= i < messages.len() ==> (#[trigger] said[i]) is Nothing
        }),
{
    let all = parts.push(last);
    let start = NegotiationView::begun(account, password);
    let turns = came(messages.push(closing));
    assert(turns.drop_last() =~= came(messages));
    assert(turns.last() == Turn::Came(closing));
    lemma_parts(account, password, parts, messages, name_of(c));
    lemma_parts(account, password, parts, messages, "sasl"@);
    let was = start.over(came(messages)).0;
    law_a_list_is_taken_in(was, closing, last, name_of(c), c);
    law_a_list_is_taken_in(was, closing, last, "sasl"@, c);
    lemma_any_of_more(parts, last, name_of(c));
    lemma_any_of_more(parts, last, "sasl"@);
}

/// What one of more lists names, one of the fewer or the last one names.
proof fn lemma_any_of_more(parts: Seq<Seq<char>>, last: Seq<char>, name: Seq<char>)
    ensures
        is_named_in_any(parts.push(last), name) <==> is_named_in_any(parts, name) || is_named(
            last,
            name,
        ),
{
    let all = parts.push(last);
    if is_named_in_any(all, name) {
        let i = choose|i: int| 0 <= i < all.len() && is_named(#[trigger] all[i], name);
        if i < parts.len() {
            assert(is_named(parts[i], name));
        }
    }
    if is_named_in_any(parts, name) {
        let i = choose|i: int| 0 <= i < parts.len() && is_named(#[trigger] parts[i], name);
        assert(is_named(all[i], name));
    }
    if is_named(last, name) {
        assert(is_named(all[parts.len() as int], name));
    }
}

/// `message` carries `list` as its last parameter, in a capability message of the kind `sub`.
pub open spec fn carries(message: Message, sub: CapKind, list: Seq<char>) -> bool {
    message.command matches Command::Cap { sub: s, first, second } && s == sub && (optional(second)
        == Some(list) || (second is None && optional(first) == Some(list)))
}

/// Once the server grants what was asked for, authentication begins where `sasl` was asked for
/// and is one of the words, and else the negotiation is over. Every word of the list is granted.
pub proof fn law_a_grant_is_taken_in(
    negotiation: NegotiationView,
    message: Message,
    list: Seq<char>,
    name: Seq<char>,
)
    requires
        negotiation.phase == Phase::Requested,
        carries(message, CapKind::Ack, list),
    ensures
        ({
            let (next, reaction) = negotiation.after(message);
            let begins = negotiation.sasl && words_of(list).contains("sasl"@);
            &&& begins ==> reaction == ReactionView::Authenticate("PLAIN"@) && next.phase
                == Phase::Authenticating
            &&& !begins ==> reaction is Nothing && next.phase == Phase::Finished
            &&& (name.len() == 0 || name[0] != '-') ==> (next.granted.contains(name)
                <==> words_of(list).contains(name) || (negotiation.granted.contains(name)
                && !words_of(list).contains(seq!['-'] + name)))
        }),
{
    if name.len() == 0 || name[0] != '-' {
        crate::caps::law_grants_are_followed(negotiation.granted, words_of(list), name);
    }
}

/// Once the server refuses what was asked for, the negotiation is over, and what it refuses is
/// shown.
pub proof fn law_a_refusal_is_shown(
    negotiation: NegotiationView,
    message: Message,
    list: Seq<char>,
)
    requires
        negotiation.phase == Phase::Requested,
        carries(message, CapKind::Nak, list) || (message.command matches Command::Cap {
            sub: CapKind::Nak,
            first: None,
            second: None,
        } && list == "(unknown)"@),
    ensures
        negotiation.after(message) == (
            NegotiationView { phase: Phase::Finished, ..negotiation },
            ReactionView::Log("server rejected capabilities: "@ + list),
        ),
{
}

/// When the server asks for the credentials, it is sent those of the account, and nothing else
/// changes.
pub proof fn law_credentials_are_sent_when_asked_for(
    negotiation: NegotiationView,
    message: Message,
    password: Seq<char>,
)
    requires
        negotiation.phase == Phase::Authenticating,
        negotiation.password == Some(password),
        message.command matches Command::Authenticate { data } && data@ == "+"@,
        4 * ((encode_utf8(seq!['\0'] + negotiation.account + seq!['\0'] + password).len() + 2) / 3)
            <= isize::MAX,
    ensures
        negotiation.after(message) == (
            negotiation,
            ReactionView::Authenticate(
                base64_text(
                    encode_utf8(seq!['\0'] + negotiation.account + seq!['\0'] + password),
                ),
            ),
        ),
{
}

/// Whether the account is known ends the negotiation: in silence where it is, and with the
/// words of the server where it is not.
pub proof fn law_the_outcome_ends_it(negotiation: NegotiationView, message: Message)
    requires
        negotiation.phase == Phase::Authenticating,
        message.command matches Command::Reply { code, .. } && (code == 900 || code == 903 || code
            == 902 || (904 <= code && code <= 907)),
    ensures
        message.command matches Command::Reply { code, args } && negotiation.after(message) == (
            NegotiationView { phase: Phase::Finished, ..negotiation },
            if code == 900 || code == 903 {
                ReactionView::Nothing
            } else {
                ReactionView::Log("SASL authentication failed: "@ + join(texts(args@), " "@))
            },
        ),
{
}

/// Whatever does not belong to the phase of the negotiation is shown as it came, and changes
/// nothing.
pub proof fn law_strangers_are_shown(negotiation: NegotiationView, message: Message)
    requires
        match message.command {
            Command::Cap { sub: CapKind::Ls, .. } => negotiation.phase != Phase::Listing,
            Command::Cap { sub: CapKind::Ack, .. } => negotiation.phase != Phase::Requested,
            Command::Cap { sub: CapKind::Nak, .. } => negotiation.phase != Phase::Requested,
            Command::Authenticate { data } => negotiation.phase != Phase::Authenticating || data@
                != "+"@,
            Command::Reply { code, .. } => negotiation.phase != Phase::Authenticating || !(code
                == 900 || code == 903 || code == 902 || (904 <= code && code <= 907)),
            _ => true,
        },
    ensures
        negotiation.after(message) == (negotiation, ReactionView::Log(raw_text(message))),
{
}

} // verus!
