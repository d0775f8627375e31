//! The IRCv3 capabilities that the client knows how to use.

use crate::text::{before, cat, head_of, holds, lemma_texts_push, texts, words, words_of};
use irc::proto::Capability as IrcCapability;
use vstd::prelude::*;

verus! {

/// A capability of a server.
#[derive(Debug, Clone, Copy, PartialEq)]
pub enum Capability {
    MultiPrefix,
    AwayNotify,
    AccountNotify,
    ChgHost,
    EchoMessage,
    ServerTime,
    CapNotify,
    InviteNotify,
    UserhostInNames,
    Batch,
    ExtendedJoin,
    Sasl,
    /// A capability that is known by its name alone.
    Custom(&'static str),
}

/// The name of a capability.
pub open spec fn name_of(capability: Capability) -> Seq<char> {
    match capability {
        Capability::MultiPrefix => "multi-prefix"@,
        Capability::AwayNotify => "away-notify"@,
        Capability::AccountNotify => "account-notify"@,
        Capability::ChgHost => "chghost"@,
        Capability::EchoMessage => "echo-message"@,
        Capability::ServerTime => "server-time"@,
        Capability::CapNotify => "cap-notify"@,
        Capability::InviteNotify => "invite-notify"@,
        Capability::UserhostInNames => "userhost-in-names"@,
        Capability::Batch => "batch"@,
        Capability::ExtendedJoin => "extended-join"@,
        Capability::Sasl => "sasl"@,
        Capability::Custom(name) => name@,
    }
}

/// Calls `AsRef::as_ref` of `irc::proto::Capability`.
///
/// Believed of the outside function: it gives the name under which IRCv3 knows the
/// capability, and of a custom one the name that it was made with.
#[verifier::external_body]
pub(crate) fn capability_name(capability: Capability) -> (name: String)
    ensures
        name@ == name_of(capability),
{
    let outside = match capability {
        Capability::MultiPrefix => IrcCapability::MultiPrefix,
        Capability::AwayNotify => IrcCapability::AwayNotify,
        Capability::AccountNotify => IrcCapability::AccountNotify,
        Capability::ChgHost => IrcCapability::ChgHost,
        Capability::EchoMessage => IrcCapability::EchoMessage,
        Capability::ServerTime => IrcCapability::ServerTime,
        Capability::CapNotify => IrcCapability::CapNotify,
        Capability::InviteNotify => IrcCapability::InviteNotify,
        Capability::UserhostInNames => IrcCapability::UserhostInNames,
        Capability::Batch => IrcCapability::Batch, Capability::Sasl => IrcCapability::Sasl,
        Capability::ExtendedJoin => IrcCapability::ExtendedJoin,
        Capability::Custom(name) => IrcCapability::Custom(name) };
    outside.as_ref().to_owned()
}

/// The capabilities that the client asks for wherever they are offered.
pub open spec fn wanted_always() -> Seq<Capability> {
    seq![
        Capability::MultiPrefix,
        Capability::AwayNotify,
        Capability::AccountNotify,
        Capability::ChgHost,
        Capability::EchoMessage,
        Capability::ServerTime,
        Capability::CapNotify,
        Capability::InviteNotify,
        Capability::UserhostInNames,
        Capability::Batch,
        Capability::ExtendedJoin,
        Capability::Custom("message-tags"),
        Capability::Custom("draft/chathistory"),
        Capability::Custom("draft/multiline"),
    ]
}

/// The capabilities of `list` whose names are among `offered`.
pub open spec fn among(list: Seq<Capability>, offered: Seq<Seq<char>>) -> Seq<Capability> {
    list.filter(|c: Capability| offered.contains(name_of(c)))
}

/// The capabilities to ask for where `offered` are offered: those that are wanted always,
/// and `sasl` only where there is something to authenticate with.
pub open spec fn to_request(offered: Seq<Seq<char>>, sasl: bool) -> Seq<Capability> {
    if sasl && offered.contains("sasl"@) {
        among(wanted_always(), offered).push(Capability::Sasl)
    } else {
        among(wanted_always(), offered)
    }
}

/// The names in a list of offered capabilities, without the values that may follow them.
pub open spec fn offered_names(list: Seq<char>) -> Seq<Seq<char>> {
    words_of(list).map_values(|word: Seq<char>| before(word, '='))
}

/// The capabilities that the client asks for wherever they are offered.
fn wanted() -> (list: Vec<Capability>)
    ensures
        list@ == wanted_always(),
{
    let list = vec![
        Capability::MultiPrefix,
        Capability::AwayNotify,
        Capability::AccountNotify,
        Capability::ChgHost,
        Capability::EchoMessage,
        Capability::ServerTime,
        Capability::CapNotify,
        Capability::InviteNotify,
        Capability::UserhostInNames,
        Capability::Batch,
        Capability::ExtendedJoin,
        Capability::Custom("message-tags"),
        Capability::Custom("draft/chathistory"),
        Capability::Custom("draft/multiline"),
    ];
    assert(list@ =~= wanted_always());
    list
}

/// The capabilities to ask for where `offered` are offered.
pub fn requested(offered: &Vec<String>, sasl: bool) -> (list: Vec<Capability>)
    ensures
        list@ == to_request(texts(offered@), sasl),
{
    let all = wanted();
    let mut list: Vec<Capability> = Vec::new();
    let ghost keep = |c: Capability| texts(offered@).contains(name_of(c));
    let mut i: usize = 0;
    proof {
        reveal(Seq::filter);
        assert(list@ =~= all@.take(0).filter(keep));
    }
    while i < all.len()
        invariant
            i <= all.len(),
            keep == (|c: Capability| texts(offered@).contains(name_of(c))),
            list@ == all@.take(i as int).filter(keep),
        decreases all.len() - i,
    {
        proof {
            reveal(Seq::filter);
            assert(all@.take(i + 1).drop_last() =~= all@.take(i as int));
        }
        if holds(offered, capability_name(all[i]).as_str()) {
            list.push(all[i]);
        }
        i += 1;
    }
    assert(all@.take(i as int) =~= all@);
    if sasl && holds(offered, "sasl") {
        list.push(Capability::Sasl);
    }
    list
}

/// Puts the names in a list of offered capabilities behind `offered`.
pub fn note_offered(offered: &mut Vec<String>, list: &str)
    ensures
        texts(final(offered)@) == texts(old(offered)@) + offered_names(list@),
{
    let found = words(list);
    let ghost start = texts(offered@);
    let mut i: usize = 0;
    assert(start =~= start + offered_names(list@).take(0));
    while i < found.len()
        invariant
            i <= found.len(),
            texts(found@) == words_of(list@),
            texts(offered@) == start + offered_names(list@).take(i as int),
        decreases found.len() - i,
    {
        let name = head_of(found[i].as_str(), '=');
        proof {
            assert(texts(found@)[i as int] == found@[i as int]@);
            assert(offered_names(list@)[i as int] == name@);
            lemma_texts_push(offered@, name);
            assert(start + offered_names(list@).take(i + 1) =~= (start + offered_names(
                list@,
            ).take(i as int)).push(name@));
        }
        offered.push(name);
        i += 1;
    }
    assert(offered_names(list@).take(i as int) =~= offered_names(list@));
}

/// Whether a word of an acknowledged list withdraws a capability: with a minus before its name.
pub open spec fn is_withdrawal(word: Seq<char>) -> bool {
    word.len() > 0 && word[0] == '-'
}

/// The names of the capabilities that are granted once the words of a list are acknowledged.
/// Those that the list withdraws are taken out, the others in the list are added.
pub open spec fn acknowledged(granted: Seq<Seq<char>>, words: Seq<Seq<char>>) -> Seq<Seq<char>> {
    granted.filter(|name: Seq<char>| !words.contains(seq!['-'] + name)) + words.filter(
        |word: Seq<char>| !is_withdrawal(word),
    )
}

/// Takes in the words of a list that the server acknowledges.
pub fn acknowledge(granted: &mut Vec<String>, words: &Vec<String>)
    ensures
        texts(final(granted)@) == acknowledged(texts(old(granted)@), texts(words@)),
{
    let ghost start = texts(granted@);
    let ghost said = texts(words@);
    let ghost stays = |name: Seq<char>| !said.contains(seq!['-'] + name);
    let ghost adds = |word: Seq<char>| !is_withdrawal(word);
    let mut kept: Vec<String> = Vec::new();
    let mut i: usize = 0;
    proof {
        reveal(Seq::filter);
        reveal_strlit("-");
        assert("-"@ =~= seq!['-']);
        assert(texts(kept@) =~= start.take(0).filter(stays));
    }
    while i < granted.len()
        invariant
            i <= granted.len(),
            start == texts(granted@),
            said == texts(words@),
            "-"@ == seq!['-'],
            stays == (|name: Seq<char>| !said.contains(seq!['-'] + name)),
            texts(kept@) == start.take(i as int).filter(stays),
        decreases granted.len() - i,
    {
        proof {
            reveal(Seq::filter);
            assert(start.take(i + 1).drop_last() =~= start.take(i as int));
            assert(start.take(i + 1).last() == granted@[i as int]@);
            lemma_texts_push(kept@, granted@[i as int]);
        }
        if !holds(words, cat("-", granted[i].as_str()).as_str()) {
            kept.push(granted[i].clone());
        }
        i += 1;
    }
    assert(start.take(i as int) =~= start);
    let ghost stayed = start.filter(stays);
    let mut k: usize = 0;
    proof {
        reveal(Seq::filter);
        assert(stayed + said.take(0).filter(adds) =~= stayed);
    }
    while k < words.len()
        invariant
            k <= words.len(),
            said == texts(words@),
            adds == (|word: Seq<char>| !is_withdrawal(word)),
            texts(kept@) == stayed + said.take(k as int).filter(adds),
        decreases words.len() - k,
    {
        proof {
            reveal(Seq::filter);
            assert(said.take(k + 1).drop_last() =~= said.take(k as int));
            assert(said.take(k + 1).last() == words@[k as int]@);
            lemma_texts_push(kept@, words@[k as int]);
            let part = said.take(k as int).filter(adds);
            assert(stayed + part.push(words@[k as int]@) =~= (stayed + part).push(
                words@[k as int]@,
            ));
        }
        let word = words[k].as_str();
        if word.is_empty() || word.get_char(0) != '-' {
            kept.push(words[k].clone());
        }
        k += 1;
    }
    assert(said.take(k as int) =~= said);
    *granted = kept;
}

/// A capability is granted once a list is acknowledged if and only if the list names it, or it
/// was granted before and the list does not withdraw it.
pub proof fn law_grants_are_followed(
    granted: Seq<Seq<char>>,
    words: Seq<Seq<char>>,
    name: Seq<char>,
)
    requires
        name.len() == 0 || name[0] != '-',
    ensures
        acknowledged(granted, words).contains(name) <==> words.contains(name) || (
        granted.contains(name) && !words.contains(seq!['-'] + name)),
{
    let stays = |n: Seq<char>| !words.contains(seq!['-'] + n);
    let adds = |w: Seq<char>| !is_withdrawal(w);
    let a = granted.filter(stays);
    let b = words.filter(adds);
    assert(acknowledged(granted, words) == a + b);
    if granted.contains(name) && stays(name) {
        let i = choose|i: int| 0 <= i < granted.len() && granted[i] == name;
        granted.lemma_filter_contains(stays, i);
        let k = choose|k: int| 0 <= k < a.len() && a[k] == name;
        assert((a + b)[k] == name);
    }
    if words.contains(name) {
        let i = choose|i: int| 0 <= i < words.len() && words[i] == name;
        assert(adds(words[i]));
        words.lemma_filter_contains(adds, i);
        let k = choose|k: int| 0 <= k < b.len() && b[k] == name;
        assert((a + b)[a.len() + k] == name);
    }
    if (a + b).contains(name) {
        let i = choose|i: int| 0 <= i < (a + b).len() && (a + b)[i] == name;
        if i < a.len() {
            assert(a[i] == name);
            granted.lemma_filter_pred(stays, i);
            granted.lemma_filter_contains_rev(stays, name);
        } else {
            assert(b[i - a.len()] == name);
            words.lemma_filter_contains_rev(adds, name);
        }
    }
}

/// Every capability that is asked for is offered, and `sasl` is asked for only where there is
/// something to authenticate with.
pub proof fn law_only_offered_is_requested(offered: Seq<Seq<char>>, sasl: bool, i: int)
    requires
        0 <= i < to_request(offered, sasl).len(),
    ensures
        offered.contains(name_of(to_request(offered, sasl)[i])),
        to_request(offered, sasl)[i] is Sasl ==> sasl,
{
    let keep = |c: Capability| offered.contains(name_of(c));
    let list = among(wanted_always(), offered);
    if i < list.len() {
        wanted_always().lemma_filter_pred(keep, i);
        assert(keep(list[i]));
        wanted_always().lemma_filter_len(keep);
        lemma_kept_from(wanted_always(), keep, i);
    }
}

/// What is wanted always is asked for wherever it is offered.
pub proof fn law_offered_is_requested(offered: Seq<Seq<char>>, sasl: bool, i: int)
    requires
        0 <= i < wanted_always().len(),
        offered.contains(name_of(wanted_always()[i])),
    ensures
        to_request(offered, sasl).contains(wanted_always()[i]),
{
    let keep = |c: Capability| offered.contains(name_of(c));
    let list = among(wanted_always(), offered);
    assert(keep(wanted_always()[i]));
    wanted_always().lemma_filter_contains(keep, i);
    let k = choose|k: int| 0 <= k < list.len() && list[k] == wanted_always()[i];
    assert(to_request(offered, sasl)[k] == wanted_always()[i]);
}

/// What a filter keeps comes from the list.
proof fn lemma_kept_from(list: Seq<Capability>, keep: spec_fn(Capability) -> bool, i: int)
    requires
        0 <= i < list.filter(keep).len(),
    ensures
        list.contains(list.filter(keep)[i]),
    decreases list.len(),
{
    reveal(Seq::filter);
    let short = list.drop_last();
    if i < short.filter(keep).len() {
        lemma_kept_from(short, keep, i);
        let k = choose|k: int| 0 <= k < short.len() && short[k] == short.filter(keep)[i];
        assert(list[k] == list.filter(keep)[i]);
    } else {
        assert(list.last() == list[list.len() - 1]);
    }
}

/// Whether a capability is kept depends on its own name alone, and those that are kept stay in
/// their order.
pub proof fn law_offers_are_picked_in_order(
    list: Seq<Capability>,
    capability: Capability,
    offered: Seq<Seq<char>>,
)
    ensures
        among(Seq::empty(), offered) == Seq::<Capability>::empty(),
        offered.contains(name_of(capability)) ==> among(list.push(capability), offered) == among(
            list,
            offered,
        ).push(capability),
        !offered.contains(name_of(capability)) ==> among(list.push(capability), offered)
            == among(list, offered),
{
    reveal(Seq::filter);
    assert(list.push(capability).drop_last() =~= list);
}

/// `sasl` is asked for, behind all others, if and only if it is offered and there is something
/// to authenticate with. All else does not depend on that.
pub proof fn law_sasl_is_requested_where_it_is_of_use(offered: Seq<Seq<char>>, sasl: bool)
    ensures
        to_request(offered, sasl) == among(wanted_always(), offered) + if sasl && offered.contains(
            "sasl"@,
        ) {
            seq![Capability::Sasl]
        } else {
            Seq::empty()
        },
        to_request(offered, sasl).contains(Capability::Sasl) <==> sasl && offered.contains(
            "sasl"@,
        ),
{
    let list = among(wanted_always(), offered);
    let all = to_request(offered, sasl);
    assert(all =~= list + if sasl && offered.contains("sasl"@) {
        seq![Capability::Sasl]
    } else {
        Seq::empty()
    });
    if sasl && offered.contains("sasl"@) {
        assert(all[list.len() as int] == Capability::Sasl);
    } else if all.contains(Capability::Sasl) {
        let i = choose|i: int| 0 <= i < all.len() && all[i] == Capability::Sasl;
        let keep = |c: Capability| offered.contains(name_of(c));
        lemma_kept_from(wanted_always(), keep, i);
        let k = choose|k: int|
            0 <= k < wanted_always().len() && wanted_always()[k] == Capability::Sasl;
        assert(false);
    }
}

/// Each word of a list of offered capabilities gives one name, in order: the word up to its
/// first equals sign.
pub proof fn law_every_word_offers_its_name(list: Seq<char>, i: int)
    requires
        0 <= i < words_of(list).len(),
    ensures
        offered_names(list).len() == words_of(list).len(),
        offered_names(list)[i] == before(words_of(list)[i], '='),
{
}

/// What a list withdraws is not granted, and its minus is no part of a name.
pub proof fn law_withdrawals_are_no_grants(
    granted: Seq<Seq<char>>,
    words: Seq<Seq<char>>,
    name: Seq<char>,
)
    requires
        name.len() > 0 && name[0] == '-',
        !granted.contains(name),
    ensures
        !acknowledged(granted, words).contains(name),
{
    let stays = |n: Seq<char>| !words.contains(seq!['-'] + n);
    let adds = |w: Seq<char>| !is_withdrawal(w);
    let a = granted.filter(stays);
    let b = words.filter(adds);
    if acknowledged(granted, words).contains(name) {
        let i = choose|i: int| 0 <= i < (a + b).len() && (a + b)[i] == name;
        if i < a.len() {
            assert(a[i] == name);
            granted.lemma_filter_contains_rev(stays, name);
        } else {
            assert(b[i - a.len()] == name);
            words.lemma_filter_pred(adds, i - a.len());
        }
    }
}

} // verus!
