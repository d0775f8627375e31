//! Negotiation of capabilities and SASL PLAIN, before the client registers.

use crate::caps::{
    acknowledge, acknowledged, law_grants_are_followed, name_of, note_offered, offered_names,
    requested, to_request, Capability,
};
use crate::config::{account_of, password_of, ServerConfig};
use crate::message::{display_raw, optional, raw_text, CapKind, Command, Message};
use crate::sasl::{plain_fits, plain_message, sasl_plain};
use crate::text::{cat, copied, holds, join, joined, same, texts, words, words_of};
use vstd::prelude::*;

verus! {

/// How far a negotiation has come.
#[derive(Debug, Clone, Copy, PartialEq, Eq, Structural)]
pub enum Phase {
    /// The server lists what it offers.
    Listing,
    /// Capabilities were asked for and the server has not answered.
    Requested,
    /// The server has granted `sasl` and does not yet say whether it knows the account.
    Authenticating,
    /// There is nothing left to wait for.
    Finished,
}

/// What a message of the server is answered with.
#[derive(Debug, PartialEq)]
pub enum Reaction {
    Nothing,
    /// Ask the server which capabilities it offers.
    List,
    /// Ask for these capabilities.
    Request(Vec<Capability>),
    /// Send an authentication message with this parameter.
    Authenticate(String),
    /// Show this line among those of the server.
    Log(String),
}

/// What a [`Reaction`] is.
pub enum ReactionView {
    Nothing,
    List,
    Request(Seq<Capability>),
    Authenticate(Seq<char>),
    Log(Seq<char>),
}

impl View for Reaction {
    type V = ReactionView;

    open spec fn view(&self) -> ReactionView {
        match *self {
            Reaction::Nothing => ReactionView::Nothing,
            Reaction::List => ReactionView::List,
            Reaction::Request(list) => ReactionView::Request(list@),
            Reaction::Authenticate(data) => ReactionView::Authenticate(data@),
            Reaction::Log(line) => ReactionView::Log(line@),
        }
    }
}

/// What a [`Negotiation`] is.
pub struct NegotiationView {
    pub account: Seq<char>,
    pub password: Option<Seq<char>>,
    pub phase: Phase,
    /// The names of the capabilities that the server has listed so far.
    pub offered: Seq<Seq<char>>,
    /// Whether `sasl` was asked for.
    pub sasl: bool,
    /// The names of the capabilities that the server has granted.
    pub granted: Seq<Seq<char>>,
}

/// What a list of offered capabilities holds, and whether another one follows it.
pub open spec fn listing(first: Option<Seq<char>>, second: Option<Seq<char>>) -> (bool, Seq<char>) {
    match (first, second) {
        (Some(star), Some(list)) => if star == "*"@ {
            (true, list)
        } else {
            (false, Seq::empty())
        },
        (Some(list), None) => (false, list),
        _ => (false, Seq::empty()),
    }
}

/// The list that a capability message carries: its last parameter.
pub open spec fn last_param(first: Option<Seq<char>>, second: Option<Seq<char>>) -> Option<
    Seq<char>,
> {
    match second {
        Some(list) => Some(list),
        None => first,
    }
}

/// The words of the list that a capability message carries.
pub open spec fn listed_words(first: Option<Seq<char>>, second: Option<Seq<char>>) -> Seq<
    Seq<char>,
> {
    match last_param(first, second) {
        Some(list) => words_of(list),
        None => Seq::empty(),
    }
}

/// The server has let the client in.
pub open spec fn is_login(code: u16) -> bool {
    code == 900 || code == 903
}

/// The server has refused the account.
pub open spec fn is_refusal(code: u16) -> bool {
    code == 902 || code == 904 || code == 905 || code == 906 || code == 907
}

impl NegotiationView {
    /// A negotiation that begins.
    pub open spec fn begun(account: Seq<char>, password: Option<Seq<char>>) -> NegotiationView {
        NegotiationView {
            account,
            password,
            phase: Phase::Listing,
            offered: Seq::empty(),
            sasl: false,
            granted: Seq::empty(),
        }
    }

    /// The negotiation with nothing left to wait for.
    pub open spec fn done(self) -> NegotiationView {
        NegotiationView { phase: Phase::Finished, ..self }
    }

    /// A message that lists what is offered. What is wanted is asked for once the list is
    /// complete.
    pub open spec fn on_list(self, first: Option<Seq<char>>, second: Option<Seq<char>>) -> (
        NegotiationView,
        ReactionView,
    ) {
        let (more, list) = listing(first, second);
        let known = NegotiationView { offered: self.offered + offered_names(list), ..self };
        let wanted = to_request(known.offered, known.password is Some);
        if more {
            (known, ReactionView::Nothing)
        } else if wanted.len() == 0 {
            (known.done(), ReactionView::Nothing)
        } else {
            (
                NegotiationView {
                    phase: Phase::Requested,
                    sasl: known.password is Some && known.offered.contains("sasl"@),
                    ..known
                },
                ReactionView::Request(wanted),
            )
        }
    }

    /// The server acknowledges a list of capabilities.
    pub open spec fn on_grant(self, list: Seq<Seq<char>>) -> (NegotiationView, ReactionView) {
        let known = NegotiationView { granted: acknowledged(self.granted, list), ..self };
        if self.sasl && list.contains("sasl"@) {
            (
                NegotiationView { phase: Phase::Authenticating, ..known },
                ReactionView::Authenticate("PLAIN"@),
            )
        } else {
            (known.done(), ReactionView::Nothing)
        }
    }

    /// The server waits for the credentials.
    pub open spec fn on_challenge(self) -> (NegotiationView, ReactionView) {
        let password = self.password.unwrap_or(Seq::empty());
        if plain_fits(self.account, password) {
            (self, ReactionView::Authenticate(plain_message(self.account, password)))
        } else {
            (self.done(), ReactionView::Nothing)
        }
    }

    /// What becomes of the negotiation by `message`, and what is answered. A message that is
    /// no part of it is shown as it came.
    pub open spec fn after(self, message: Message) -> (NegotiationView, ReactionView) {
        match (self.phase, message.command) {
            (Phase::Listing, Command::Cap { sub: CapKind::Ls, first, second }) => self.on_list(
                optional(first),
                optional(second),
            ),
            (Phase::Requested, Command::Cap { sub: CapKind::Ack, first, second }) => self.on_grant(
                listed_words(optional(first), optional(second)),
            ),
            (Phase::Requested, Command::Cap { sub: CapKind::Nak, first, second }) => (
                self.done(),
                ReactionView::Log(
                    "server rejected capabilities: "@ + last_param(
                        optional(first),
                        optional(second),
                    ).unwrap_or("(unknown)"@),
                ),
            ),
            (Phase::Authenticating, Command::Authenticate { data }) => if data@ == "+"@ {
                self.on_challenge()
            } else {
                (self, ReactionView::Log(raw_text(message)))
            },
            (Phase::Authenticating, Command::Reply { code, args }) => if is_login(code) {
                (self.done(), ReactionView::Nothing)
            } else if is_refusal(code) {
                (
                    self.done(),
                    ReactionView::Log(
                        "SASL authentication failed: "@ + join(texts(args@), " "@),
                    ),
                )
            } else {
                (self, ReactionView::Log(raw_text(message)))
            },
            _ => (self, ReactionView::Log(raw_text(message))),
        }
    }

    /// Authentication is under way only with a password that the server may ask for.
    pub open spec fn wf(self) -> bool {
        &&& self.sasl ==> self.password is Some && self.offered.contains("sasl"@)
        &&& self.phase == Phase::Authenticating ==> self.sasl && self.granted.contains("sasl"@)
    }
}

/// A negotiation with a server.
pub struct Negotiation {
    account: String,
    password: Option<String>,
    phase: Phase,
    offered: Vec<String>,
    sasl: bool,
    granted: Vec<String>,
}

impl View for Negotiation {
    type V = NegotiationView;

    closed spec fn view(&self) -> NegotiationView {
        NegotiationView {
            account: self.account@,
            password: optional(self.password),
            phase: self.phase,
            offered: texts(self.offered@),
            sasl: self.sasl,
            granted: texts(self.granted@),
        }
    }
}

/// The list that a capability message carries: its last parameter.
pub(crate) fn last_of(first: &Option<String>, second: &Option<String>) -> (list: Option<String>)
    ensures
        optional(list) == last_param(optional(*first), optional(*second)),
{
    match second {
        Some(list) => Some(list.clone()),
        None => match first {
            Some(list) => Some(list.clone()),
            None => None,
        },
    }
}

/// The words of the list that a capability message carries.
fn words_listed(first: &Option<String>, second: &Option<String>) -> (list: Vec<String>)
    ensures
        texts(list@) == listed_words(optional(*first), optional(*second)),
{
    match last_of(first, second) {
        Some(list) => words(list.as_str()),
        None => {
            let list: Vec<String> = Vec::new();
            assert(texts(list@) =~= Seq::empty());
            list
        },
    }
}

impl Negotiation {
    /// A negotiation with the server of `config`, and what it begins with: the server is
    /// asked for what it offers. The account is authenticated where a password is given that
    /// is not empty, and where the server grants it.
    pub fn begin(config: &ServerConfig) -> (begun: (Negotiation, Reaction))
        ensures
            begun.0@ == NegotiationView::begun(account_of(*config), password_of(*config)),
            begun.0@.wf(),
            begun.1@ == ReactionView::List,
    {
        let negotiation = Negotiation {
            account: config.account(),
            password: config.password(),
            phase: Phase::Listing,
            offered: Vec::new(),
            sasl: false,
            granted: Vec::new(),
        };
        assert(negotiation@.offered =~= Seq::empty());
        assert(negotiation@.granted =~= Seq::empty());
        (negotiation, Reaction::List)
    }

    /// Whether there is nothing left to wait for.
    pub fn is_finished(&self) -> (finished: bool)
        ensures
            finished == (self@.phase == Phase::Finished),
    {
        match self.phase {
            Phase::Finished => true,
            _ => false,
        }
    }

    /// The names of the capabilities that the server has granted.
    pub fn granted(&self) -> (granted: Vec<String>)
        ensures
            texts(granted@) == self@.granted,
    {
        copied(&self.granted)
    }

    /// Ends the negotiation, because the connection was lost or a request could not be sent.
    pub fn give_up(&mut self)
        ensures
            final(self)@ == old(self)@.done(),
    {
        self.phase = Phase::Finished;
    }

    fn on_list(&mut self, first: &Option<String>, second: &Option<String>) -> (reaction: Reaction)
        ensures
            (final(self)@, reaction@) == old(self)@.on_list(optional(*first), optional(*second)),
    {
        let mut more = false;
        let mut list = String::new();
        match first {
            Some(one) => match second {
                Some(two) => {
                    if same(one.as_str(), "*") {
                        more = true;
                        list = two.clone();
                    }
                },
                None => {
                    list = one.clone();
                },
            },
            None => {},
        }
        assert((more, list@) == listing(optional(*first), optional(*second)));
        note_offered(&mut self.offered, list.as_str());
        if more {
            return Reaction::Nothing;
        }
        let can_authenticate = self.password.is_some();
        let wanted = requested(&self.offered, can_authenticate);
        if wanted.len() == 0 {
            self.phase = Phase::Finished;
            Reaction::Nothing
        } else {
            self.phase = Phase::Requested;
            self.sasl = can_authenticate && holds(&self.offered, "sasl");
            Reaction::Request(wanted)
        }
    }

    fn on_grant(&mut self, first: &Option<String>, second: &Option<String>) -> (reaction: Reaction)
        ensures
            (final(self)@, reaction@) == old(self)@.on_grant(
                listed_words(optional(*first), optional(*second)),
            ),
    {
        let list = words_listed(first, second);
        let begin = self.sasl && holds(&list, "sasl");
        acknowledge(&mut self.granted, &list);
        if begin {
            self.phase = Phase::Authenticating;
            Reaction::Authenticate("PLAIN".to_owned())
        } else {
            self.phase = Phase::Finished;
            Reaction::Nothing
        }
    }

    fn on_challenge(&mut self) -> (reaction: Reaction)
        ensures
            (final(self)@, reaction@) == old(self)@.on_challenge(),
    {
        let password = match &self.password {
            Some(password) => password.clone(),
            None => String::new(),
        };
        match sasl_plain(self.account.as_str(), password.as_str()) {
            Some(message) => Reaction::Authenticate(message),
            None => {
                self.phase = Phase::Finished;
                Reaction::Nothing
            },
        }
    }

    /// Takes in a message of the server and says what to answer.
    pub fn step(&mut self, message: &Message) -> (reaction: Reaction)
        requires
            old(self)@.wf(),
        ensures
            (final(self)@, reaction@) == old(self)@.after(*message),
            final(self)@.wf(),
    {
        proof {
            law_authentication_needs_a_grant(self@, *message);
        }
        match (self.phase, &message.command) {
            (Phase::Listing, Command::Cap { sub: CapKind::Ls, first, second }) => self.on_list(
                first,
                second,
            ),
            (Phase::Requested, Command::Cap { sub: CapKind::Ack, first, second }) => self.on_grant(
                first,
                second,
            ),
            (Phase::Requested, Command::Cap { sub: CapKind::Nak, first, second }) => {
                self.phase = Phase::Finished;
                let list = match last_of(first, second) {
                    Some(list) => list,
                    None => "(unknown)".to_owned(),
                };
                Reaction::Log(cat("server rejected capabilities: ", list.as_str()))
            },
            (Phase::Authenticating, Command::Authenticate { data }) => {
                if same(data.as_str(), "+") {
                    self.on_challenge()
                } else {
                    Reaction::Log(display_raw(message))
                }
            },
            (Phase::Authenticating, Command::Reply { code, args }) => {
                if *code == 900 || *code == 903 {
                    self.phase = Phase::Finished;
                    Reaction::Nothing
                } else if *code == 902 || *code == 904 || *code == 905 || *code == 906 || *code
                    == 907 {
                    self.phase = Phase::Finished;
                    Reaction::Log(
                        cat("SASL authentication failed: ", joined(args, " ").as_str()),
                    )
                } else {
                    Reaction::Log(display_raw(message))
                }
            },
            _ => Reaction::Log(display_raw(message)),
        }
    }
}

/// Whether `message` belongs to a negotiation in the phase `phase`.
pub open spec fn belongs(phase: Phase, message: Message) -> bool {
    match message.command {
        Command::Cap { sub: CapKind::Ls, .. } => phase == Phase::Listing,
        Command::Cap { sub: CapKind::Ack, .. } => phase == Phase::Requested,
        Command::Cap { sub: CapKind::Nak, .. } => phase == Phase::Requested,
        Command::Authenticate { data } => phase == Phase::Authenticating && data@ == "+"@,
        Command::Reply { code, .. } => phase == Phase::Authenticating && (is_login(code)
            || is_refusal(code)),
        _ => false,
    }
}

/// A message that does not belong to the negotiation is shown as it came and changes
/// nothing: none is dropped.
pub proof fn law_other_messages_are_shown(negotiation: NegotiationView, message: Message)
    requires
        !belongs(negotiation.phase, message),
    ensures
        negotiation.after(message) == (negotiation, ReactionView::Log(raw_text(message))),
{
}

/// Only what the server has offered is asked for, and `sasl` only with a password.
pub proof fn law_requests_are_offered(negotiation: NegotiationView, message: Message, i: int)
    requires
        negotiation.after(message).1 matches ReactionView::Request(list) && 0 <= i < list.len(),
    ensures
        negotiation.after(message).1 matches ReactionView::Request(list) && {
            let next = negotiation.after(message).0;
            &&& next.offered.contains(name_of(list[i]))
            &&& list[i] is Sasl ==> negotiation.password is Some
        },
{
    let next = negotiation.after(message).0;
    crate::caps::law_only_offered_is_requested(next.offered, next.password is Some, i);
}

/// Authentication begins only when `sasl`, having been offered and asked for with a password
/// at hand, is granted; it begins with the name of the mechanism. The credentials are sent
/// only after that, and only when the server asks for them. What the negotiation knows of
/// itself stays true.
pub proof fn law_authentication_needs_a_grant(negotiation: NegotiationView, message: Message)
    requires
        negotiation.wf(),
    ensures
        ({
            let (next, reaction) = negotiation.after(message);
            &&& next.wf()
            &&& next.phase == Phase::Authenticating && negotiation.phase != Phase::Authenticating
                ==> {
                &&& negotiation.phase == Phase::Requested
                &&& negotiation.sasl
                &&& negotiation.password is Some
                &&& message.command matches Command::Cap { sub: CapKind::Ack, first, second }
                    && listed_words(optional(first), optional(second)).contains("sasl"@)
                &&& reaction == ReactionView::Authenticate("PLAIN"@)
            }
            &&& reaction matches ReactionView::Authenticate(data) ==> {
                ||| data == "PLAIN"@ && next.phase == Phase::Authenticating
                ||| {
                    &&& negotiation.phase == Phase::Authenticating
                    &&& negotiation.granted.contains("sasl"@)
                    &&& message.command matches Command::Authenticate { data: challenge }
                        && challenge@ == "+"@
                    &&& data == plain_message(negotiation.account, negotiation.password->0)
                }
            }
        }),
{
    let next = negotiation.after(message).0;
    match (negotiation.phase, message.command) {
        (Phase::Listing, Command::Cap { sub: CapKind::Ls, first, second }) => {
            lemma_contains_either(
                negotiation.offered,
                offered_names(listing(optional(first), optional(second)).1),
                "sasl"@,
            );
        },
        (Phase::Requested, Command::Cap { sub: CapKind::Ack, first, second }) => {
            reveal_strlit("sasl");
            law_grants_are_followed(
                negotiation.granted,
                listed_words(optional(first), optional(second)),
                "sasl"@,
            );
        },
        _ => {},
    }
}

/// A list holds what either part of it holds.
proof fn lemma_contains_either(a: Seq<Seq<char>>, b: Seq<Seq<char>>, x: Seq<char>)
    ensures
        a.contains(x) || b.contains(x) ==> (a + b).contains(x),
{
    if a.contains(x) {
        let i = choose|i: int| 0 <= i < a.len() && a[i] == x;
        assert((a + b)[i] == x);
    }
    if b.contains(x) {
        let i = choose|i: int| 0 <= i < b.len() && b[i] == x;
        assert((a + b)[a.len() + i] == x);
    }
}

/// Without a password nothing is ever authenticated, whatever the server offers or grants.
pub proof fn law_no_password_no_authentication(negotiation: NegotiationView, message: Message)
    requires
        negotiation.wf(),
        negotiation.password is None,
    ensures
        !(negotiation.after(message).1 is Authenticate),
        negotiation.after(message).0.password is None,
        negotiation.after(message).0.phase != Phase::Authenticating,
{
    law_authentication_needs_a_grant(negotiation, message);
}

/// Something that happens in the course of a negotiation.
pub enum Turn {
    /// The server sends a message.
    Came(Message),
    /// The connection is lost, or a request cannot be sent.
    GivenUp,
}

/// How far a phase is from the beginning.
pub open spec fn rank(phase: Phase) -> int {
    match phase {
        Phase::Listing => 0,
        Phase::Requested => 1,
        Phase::Authenticating => 2,
        Phase::Finished => 3,
    }
}

impl NegotiationView {
    /// What becomes of the negotiation by `turn`, and what is answered.
    pub open spec fn turned(self, turn: Turn) -> (NegotiationView, ReactionView) {
        match turn {
            Turn::Came(message) => self.after(message),
            Turn::GivenUp => (self.done(), ReactionView::Nothing),
        }
    }

    /// What becomes of the negotiation by `turns`, one after the other, and what is answered
    /// to each of them.
    pub open spec fn over(self, turns: Seq<Turn>) -> (NegotiationView, Seq<ReactionView>)
        decreases turns.len(),
    {
        if turns.len() == 0 {
            (self, Seq::empty())
        } else {
            let (before, said) = self.over(turns.drop_last());
            let (next, reaction) = before.turned(turns.last());
            (next, said.push(reaction))
        }
    }
}

/// Whether a reaction asks for capabilities or authenticates.
pub open spec fn is_demand(reaction: ReactionView) -> bool {
    reaction is Request || reaction is Authenticate
}

/// One turn never goes back to an earlier phase. Capabilities are asked for only while they
/// are listed, and authentication messages are sent only after that.
pub proof fn law_no_phase_comes_back(negotiation: NegotiationView, turn: Turn)
    ensures
        ({
            let (next, reaction) = negotiation.turned(turn);
            &&& rank(negotiation.phase) <= rank(next.phase)
            &&& !(reaction is List)
            &&& reaction is Request ==> negotiation.phase == Phase::Listing && next.phase
                == Phase::Requested
            &&& reaction is Authenticate ==> negotiation.phase == Phase::Requested
                || negotiation.phase == Phase::Authenticating
            &&& negotiation.phase == Phase::Listing && next.phase != Phase::Listing && next.phase
                != Phase::Finished ==> reaction is Request
        }),
{
}

/// What was answered in a negotiation fits the phase that it is in.
proof fn lemma_over(start: NegotiationView, turns: Seq<Turn>)
    requires
        start.phase == Phase::Listing,
    ensures
        ({
            let (now, said) = start.over(turns);
            &&& said.len() == turns.len()
            &&& forall|i: int| 0 <= i < said.len() ==> !((#[trigger] said[i]) is List)
            &&& now.phase == Phase::Listing ==> forall|i: int|
                0 <= i < said.len() ==> !is_demand(#[trigger] said[i])
            &&& now.phase == Phase::Requested || now.phase == Phase::Authenticating ==> exists|
                i: int,
            | 0 <= i < said.len() && (#[trigger] said[i]) is Request
            &&& forall|i: int, j: int|
                0 <= i < j < said.len() && (#[trigger] said[j]) is Request ==> !is_demand(
                    #[trigger] said[i],
                )
            &&& forall|j: int|
                0 <= j < said.len() && (#[trigger] said[j]) is Authenticate ==> exists|i: int|
                    0 <= i < j && (#[trigger] said[i]) is Request
        }),
    decreases turns.len(),
{
    if turns.len() > 0 {
        let fewer = turns.drop_last();
        lemma_over(start, fewer);
        let (before, was) = start.over(fewer);
        let (now, said) = start.over(turns);
        let last = was.len() as int;
        law_no_phase_comes_back(before, turns.last());
        assert(said == was.push(before.turned(turns.last()).1));
        assert forall|i: int| 0 <= i < last implies said[i] == was[i] by {}
        if before.phase == Phase::Requested || before.phase == Phase::Authenticating {
            let k = choose|k: int| 0 <= k < was.len() && (#[trigger] was[k]) is Request;
            assert(said[k] is Request);
        }
        if now.phase == Phase::Requested || now.phase == Phase::Authenticating {
            if before.phase == Phase::Listing {
                assert(said[last] is Request);
            }
        }
        assert forall|j: int| 0 <= j < said.len() && (#[trigger] said[j]) is Authenticate implies
            exists|i: int| 0 <= i < j && (#[trigger] said[i]) is Request by {
            if j < last {
                assert(was[j] is Authenticate);
                let k = choose|k: int| 0 <= k < j && (#[trigger] was[k]) is Request;
                assert(said[k] is Request);
            }
        }
    }
}

/// A later phase is not an earlier one.
proof fn lemma_phases_in_order(start: NegotiationView, turns: Seq<Turn>, i: int)
    requires
        0 <= i <= turns.len(),
    ensures
        rank(start.over(turns.take(i)).0.phase) <= rank(start.over(turns).0.phase),
    decreases turns.len(),
{
    if i == turns.len() {
        assert(turns.take(i) =~= turns);
    } else {
        lemma_phases_in_order(start, turns.drop_last(), i);
        assert(turns.drop_last().take(i) =~= turns.take(i));
        law_no_phase_comes_back(start.over(turns.drop_last()).0, turns.last());
    }
}

/// Whatever the server sends and whenever the connection is lost: the server is asked once what
/// it offers, first of all; capabilities are asked for at most once, before any authentication
/// message; no authentication message is sent without that; and besides these nothing is sent
/// in a negotiation.
pub proof fn law_order_of_a_negotiation(
    account: Seq<char>,
    password: Option<Seq<char>>,
    turns: Seq<Turn>,
)
    ensures
        ({
            let said = seq![ReactionView::List] + NegotiationView::begun(account, password).over(
                turns,
            ).1;
            &&& said.len() == turns.len() + 1
            &&& forall|i: int| 0 <= i < said.len() ==> ((#[trigger] said[i]) is List <==> i == 0)
            &&& forall|i: int, j: int|
                0 <= i < j < said.len() && (#[trigger] said[j]) is Request ==> !((
                #[trigger] said[i]) is Request) && !(said[i] is Authenticate)
            &&& forall|j: int|
                0 <= j < said.len() && (#[trigger] said[j]) is Authenticate ==> exists|i: int|
                    0 <= i < j && (#[trigger] said[i]) is Request
            &&& forall|i: int|
                0 <= i < said.len() ==> (#[trigger] said[i]) is List || said[i] is Request
                    || said[i] is Authenticate || said[i] is Log || said[i] is Nothing
        }),
{
    let start = NegotiationView::begun(account, password);
    lemma_over(start, turns);
    let was = start.over(turns).1;
    let said = seq![ReactionView::List] + was;
    assert forall|i: int| 0 < i < said.len() implies said[i] == was[i - 1] by {}
    assert forall|i: int, j: int|
        0 <= i < j < said.len() && (#[trigger] said[j]) is Request implies !((
    #[trigger] said[i]) is Request) && !(said[i] is Authenticate) by {
        assert(was[j - 1] is Request);
        if i > 0 {
            assert(!is_demand(was[i - 1]));
        }
    }
    assert forall|j: int| 0 <= j < said.len() && (#[trigger] said[j]) is Authenticate implies exists|
        i: int,
    | 0 <= i < j && (#[trigger] said[i]) is Request by {
        assert(was[j - 1] is Authenticate);
        let k = choose|k: int| 0 <= k < j - 1 && (#[trigger] was[k]) is Request;
        assert(said[k + 1] is Request);
    }
}

/// In the course of a negotiation the phase never goes back.
pub proof fn law_phases_in_order(
    account: Seq<char>,
    password: Option<Seq<char>>,
    turns: Seq<Turn>,
    i: int,
    j: int,
)
    requires
        0 <= i <= j <= turns.len(),
    ensures
        rank(NegotiationView::begun(account, password).over(turns.take(i)).0.phase) <= rank(
            NegotiationView::begun(account, password).over(turns.take(j)).0.phase,
        ),
{
    lemma_phases_in_order(NegotiationView::begun(account, password), turns.take(j), i);
    assert(turns.take(j).take(i) =~= turns.take(i));
}

/// What is stated of what is answered is stated of all of it.
pub proof fn law_nothing_is_left_out_of_a_reaction(reaction: Reaction)
    ensures
        reaction is Nothing ==> reaction@ is Nothing,
        reaction is List ==> reaction@ is List,
        reaction matches Reaction::Request(list) ==> reaction@ == ReactionView::Request(list@),
        reaction matches Reaction::Authenticate(data) ==> reaction@ == ReactionView::Authenticate(
            data@,
        ),
        reaction matches Reaction::Log(line) ==> reaction@ == ReactionView::Log(line@),
{
}

} // verus!
