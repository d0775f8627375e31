//! What the window shows: the rows of its sidebar, what is selected, and lists of members.

use crate::clock::{stamped, stamped_text};
use crate::config::AppConfig;
use crate::events::{IrcEvent, IrcEventView, SERVER_TARGET};
use crate::outgoing::{pack, packed};
use crate::roster::{lemma_set_wf, Roster, RosterView};
use crate::sorting::lemma_push_contains;
use crate::text::{
    after, before, cat, cat3, head_of, holds, lemma_first_at, lemma_split_joined, lemma_texts_push, same,
    tail_of, texts,
};
use vstd::prelude::*;

verus! {

/// The character between the server and the target in a key.
pub const KEY_SEP: char = '\u{2}';

/// The key of the buffer of `target` on `server`.
pub open spec fn key_of(server: Seq<char>, target: Seq<char>) -> Seq<char> {
    server + seq![KEY_SEP] + target
}

/// The key of the buffer of `target` on `server`.
pub fn key(server: &str, target: &str) -> (key: String)
    ensures
        key@ == key_of(server@, target@),
{
    proof {
        reveal_strlit("\u{2}");
        assert("\u{2}"@ =~= seq![KEY_SEP]);
    }
    cat3(server, "\u{2}", target)
}

/// The server and the target of a key. Text that is no key is taken for a server.
pub fn split_key(key: &str) -> (parts: (String, String))
    ensures
        parts.0@ == before(key@, KEY_SEP),
        parts.1@ == after(key@, KEY_SEP),
        !key@.contains(KEY_SEP) ==> parts.0@ == key@ && parts.1@.len() == 0,
{
    proof {
        lemma_first_at(key@, KEY_SEP);
        if !key@.contains(KEY_SEP) {
            assert(before(key@, KEY_SEP) =~= key@);
        }
    }
    (head_of(key, KEY_SEP), tail_of(key, KEY_SEP))
}

/// A key gives back the server and the target that it was made of, since the name of a server
/// does not hold the separator.
pub proof fn law_key_splits(server: Seq<char>, target: Seq<char>)
    requires
        !server.contains(KEY_SEP),
    ensures
        before(key_of(server, target), KEY_SEP) == server,
        after(key_of(server, target), KEY_SEP) == target,
{
    lemma_split_joined(server, KEY_SEP, target);
}

/// Different buffers have different keys.
pub proof fn law_keys_differ(
    server: Seq<char>,
    target: Seq<char>,
    other_server: Seq<char>,
    other_target: Seq<char>,
)
    requires
        !server.contains(KEY_SEP),
        !other_server.contains(KEY_SEP),
        key_of(server, target) == key_of(other_server, other_target),
    ensures
        server == other_server,
        target == other_target,
{
    law_key_splits(server, target);
    law_key_splits(other_server, other_target);
}

/// What is written in the row of `target` on `server`: the name of the server behind a mark in
/// the row of the server itself, else the target, set in.
pub open spec fn label_of(server: Seq<char>, target: Seq<char>) -> Seq<char> {
    if target == SERVER_TARGET@ {
        "\u{25be} "@ + server
    } else {
        "    "@ + target
    }
}

/// A row that is put into the sidebar.
#[derive(Debug, PartialEq)]
pub struct NewRow {
    pub key: String,
    pub label: String,
    /// How many rows stand above it.
    pub position: i32,
}

/// What a [`NewRow`] is.
pub struct NewRowView {
    pub key: Seq<char>,
    pub label: Seq<char>,
    pub position: int,
}

impl View for NewRow {
    type V = NewRowView;

    open spec fn view(&self) -> NewRowView {
        NewRowView { key: self.key@, label: self.label@, position: self.position as int }
    }
}

/// What an optional row is.
pub open spec fn optional_row(row: Option<NewRow>) -> Option<NewRowView> {
    match row {
        Some(r) => Some(r@),
        None => None,
    }
}

/// What the rows of `v` are.
pub open spec fn new_rows(v: Seq<NewRow>) -> Seq<NewRowView> {
    Seq::new(v.len(), |i: int| v[i]@)
}

/// The rows of `servers`, one server behind the other.
pub open spec fn flat(servers: Seq<Seq<char>>, rows: Map<Seq<char>, Seq<Seq<char>>>) -> Seq<
    Seq<char>,
>
    decreases servers.len(),
{
    if servers.len() == 0 {
        Seq::empty()
    } else {
        flat(servers.drop_last(), rows) + rows[servers.last()]
    }
}

/// What a [`Workspace`] is.
#[verifier::ext_equal]
pub struct WorkspaceView {
    /// The keys of the rows of the sidebar, from top to bottom.
    pub rows: Seq<Seq<char>>,
    /// The keys of the rows of each server, in the order in which the servers came.
    pub servers: RosterView,
    /// The members of channels, by the keys of the channels.
    pub nicks: RosterView,
    /// Those of them who are away.
    pub away: RosterView,
    /// The server and the target that are selected.
    pub selected: (Seq<char>, Seq<char>),
    /// The names of the servers that there are connections to.
    pub connections: Seq<Seq<char>>,
}

impl WorkspaceView {
    /// A window with nothing in it.
    pub open spec fn blank() -> WorkspaceView {
        WorkspaceView {
            rows: Seq::empty(),
            servers: RosterView::none(),
            nicks: RosterView::none(),
            away: RosterView::none(),
            selected: (Seq::empty(), Seq::empty()),
            connections: Seq::empty(),
        }
    }

    /// The sidebar shows the rows of one server behind those of another, and no row twice.
    pub open spec fn wf(self) -> bool {
        &&& self.servers.wf()
        &&& self.nicks.wf()
        &&& self.away.wf()
        &&& self.rows == flat(self.servers.order, self.servers.lists)
        &&& self.rows.no_duplicates()
    }

    /// Where a new row of `server` is put: behind the rows of the server, or below all others
    /// where it has none.
    pub open spec fn position(self, server: Seq<char>) -> int {
        if self.servers.lists.contains_key(server) {
            flat(
                self.servers.order.take(self.servers.order.index_of(server) + 1),
                self.servers.lists,
            ).len() as int
        } else {
            self.rows.len() as int
        }
    }

    /// The buffer of `target` on `server` is opened, and a row is put into the sidebar for it
    /// unless there is one.
    pub open spec fn opened(self, server: Seq<char>, target: Seq<char>) -> (
        WorkspaceView,
        Option<NewRowView>,
    ) {
        let key = key_of(server, target);
        if self.rows.contains(key) {
            (self, None)
        } else {
            (
                WorkspaceView {
                    rows: self.rows.insert(self.position(server), key),
                    servers: self.servers.set(server, self.servers.get(server).push(key)),
                    ..self
                },
                Some(
                    NewRowView {
                        key,
                        label: label_of(server, target),
                        position: self.position(server),
                    },
                ),
            )
        }
    }

    /// The rows of servers themselves are opened, one after the other.
    pub open spec fn opened_servers(self, servers: Seq<Seq<char>>) -> (
        WorkspaceView,
        Seq<NewRowView>,
    )
        decreases servers.len(),
    {
        if servers.len() == 0 {
            (self, Seq::empty())
        } else {
            let (before, rows) = self.opened_servers(servers.drop_last());
            let (next, row) = before.opened(servers.last(), SERVER_TARGET@);
            (
                next,
                match row {
                    Some(r) => rows.push(r),
                    None => rows,
                },
            )
        }
    }

    /// The window at the start, with the servers of the names `servers`: each of them has its
    /// row, and the first one is selected.
    pub open spec fn started(servers: Seq<Seq<char>>) -> WorkspaceView {
        WorkspaceView {
            selected: if servers.len() > 0 {
                (servers[0], SERVER_TARGET@)
            } else {
                (Seq::empty(), Seq::empty())
            },
            connections: servers,
            ..WorkspaceView::blank().opened_servers(servers).0
        }
    }

    /// A row is selected, by its key.
    pub open spec fn with_selected(self, key: Seq<char>) -> WorkspaceView {
        WorkspaceView { selected: (before(key, KEY_SEP), after(key, KEY_SEP)), ..self }
    }

    /// The members to list for what is selected, and those of them who are away.
    pub open spec fn in_sight(self) -> (Seq<Seq<char>>, Seq<Seq<char>>) {
        let key = key_of(self.selected.0, self.selected.1);
        (self.nicks.get(key), self.away.get(key))
    }

    /// The members of a channel are known.
    pub open spec fn with_names(
        self,
        server: Seq<char>,
        channel: Seq<char>,
        nicks: Seq<Seq<char>>,
        away: Seq<Seq<char>>,
    ) -> WorkspaceView {
        WorkspaceView {
            nicks: self.nicks.set(key_of(server, channel), nicks),
            away: self.away.set(key_of(server, channel), away),
            ..self
        }
    }
}

/// What the window does when something is to be shown.
#[derive(Debug, PartialEq)]
pub enum Update {
    /// Text goes to the end of a buffer, for which a row may have to be put into the sidebar.
    /// The end of the buffer is scrolled to where it is in sight.
    Append { row: Option<NewRow>, key: String, text: String, scroll: bool },
    /// The list of members that is in sight is filled anew, or is not touched.
    Members { refresh: bool },
}

/// What an [`Update`] is.
pub enum UpdateView {
    Append { row: Option<NewRowView>, key: Seq<char>, text: Seq<char>, scroll: bool },
    Members { refresh: bool },
}

impl View for Update {
    type V = UpdateView;

    open spec fn view(&self) -> UpdateView {
        match *self {
            Update::Append { row, key, text, scroll } => UpdateView::Append {
                row: optional_row(row),
                key: key@,
                text: text@,
                scroll,
            },
            Update::Members { refresh } => UpdateView::Members { refresh },
        }
    }
}

impl WorkspaceView {
    /// What becomes of the window when `event` is shown at the time `stamp`, and what it does.
    pub open spec fn after(self, event: IrcEventView, stamp: Seq<char>) -> (
        WorkspaceView,
        UpdateView,
    ) {
        match event {
            IrcEventView::Line { server, target, text } => {
                let (next, row) = self.opened(server, target);
                (
                    next,
                    UpdateView::Append {
                        row,
                        key: key_of(server, target),
                        text: stamped_text(stamp, text),
                        scroll: self.selected == (server, target),
                    },
                )
            },
            IrcEventView::Names { server, channel, nicks, away } => (
                self.with_names(server, channel, nicks, away),
                UpdateView::Members { refresh: self.selected == (server, channel) },
            ),
        }
    }
}

/// The rows of the first servers are the first rows.
proof fn lemma_flat_take(
    servers: Seq<Seq<char>>,
    rows: Map<Seq<char>, Seq<Seq<char>>>,
    n: int,
)
    requires
        0 <= n <= servers.len(),
    ensures
        flat(servers.take(n), rows).len() <= flat(servers, rows).len(),
        flat(servers, rows).take(flat(servers.take(n), rows).len() as int) == flat(
            servers.take(n),
            rows,
        ),
    decreases servers.len() - n,
{
    let all = flat(servers, rows);
    if n == servers.len() {
        assert(servers.take(n) =~= servers);
        assert(all.take(all.len() as int) =~= all);
    } else {
        lemma_flat_take(servers, rows, n + 1);
        let more = servers.take(n + 1);
        assert(more.drop_last() =~= servers.take(n));
        let part = flat(servers.take(n), rows);
        let longer = flat(more, rows);
        assert(longer.take(part.len() as int) =~= part);
        assert(all.take(part.len() as int) =~= all.take(longer.len() as int).take(
            part.len() as int,
        ));
    }
}

/// Rows of other servers than those listed do not matter.
proof fn lemma_flat_other(
    servers: Seq<Seq<char>>,
    rows: Map<Seq<char>, Seq<Seq<char>>>,
    server: Seq<char>,
    list: Seq<Seq<char>>,
)
    requires
        !servers.contains(server),
    ensures
        flat(servers, rows.insert(server, list)) == flat(servers, rows),
    decreases servers.len(),
{
    if servers.len() > 0 {
        let fewer = servers.drop_last();
        assert(!fewer.contains(server)) by {
            if fewer.contains(server) {
                let i = choose|i: int| 0 <= i < fewer.len() && fewer[i] == server;
                assert(servers[i] == server);
            }
        }
        lemma_flat_other(fewer, rows, server, list);
        assert(servers[servers.len() - 1] == servers.last());
        assert(servers.last() != server);
    }
}

/// A row behind those of one server stands behind those of the servers up to that one.
proof fn lemma_flat_push(
    servers: Seq<Seq<char>>,
    rows: Map<Seq<char>, Seq<Seq<char>>>,
    at: int,
    key: Seq<char>,
)
    requires
        servers.no_duplicates(),
        0 <= at < servers.len(),
    ensures
        flat(servers, rows.insert(servers[at], rows[servers[at]].push(key))) == flat(
            servers,
            rows,
        ).insert(flat(servers.take(at + 1), rows).len() as int, key),
        0 <= flat(servers.take(at + 1), rows).len() <= flat(servers, rows).len(),
    decreases servers.len(),
{
    let server = servers[at];
    let list = rows[server].push(key);
    let changed = rows.insert(server, list);
    let fewer = servers.drop_last();
    let place = flat(servers.take(at + 1), rows).len() as int;
    lemma_flat_take(servers, rows, at + 1);
    if at == servers.len() - 1 {
        assert(servers.take(at + 1) =~= servers);
        assert(!fewer.contains(server)) by {
            if fewer.contains(server) {
                let i = choose|i: int| 0 <= i < fewer.len() && fewer[i] == server;
                assert(servers[i] == server);
            }
        }
        lemma_flat_other(fewer, rows, server, list);
        assert(servers.last() == server);
        assert(flat(servers, changed) =~= flat(servers, rows).insert(place, key));
    } else {
        assert(fewer.no_duplicates());
        lemma_flat_push(fewer, rows, at, key);
        assert(fewer[at] == server);
        assert(fewer.take(at + 1) =~= servers.take(at + 1));
        assert(servers.last() != server);
        assert(flat(servers, changed) =~= flat(servers, rows).insert(place, key));
    }
}

/// A key that is inserted where it does not occur still occurs once.
proof fn lemma_insert_distinct(rows: Seq<Seq<char>>, at: int, key: Seq<char>)
    requires
        rows.no_duplicates(),
        !rows.contains(key),
        0 <= at <= rows.len(),
    ensures
        rows.insert(at, key).no_duplicates(),
{
    let out = rows.insert(at, key);
    assert forall|i: int, j: int|
        0 <= i < out.len() && 0 <= j < out.len() && i != j implies out[i] != out[j] by {
        let a = if i < at {
            i
        } else {
            i - 1
        };
        let b = if j < at {
            j
        } else {
            j - 1
        };
        if i != at {
            assert(out[i] == rows[a]);
            assert(rows.contains(rows[a]));
        }
        if j != at {
            assert(out[j] == rows[b]);
            assert(rows.contains(rows[b]));
        }
    }
}

/// Opening a buffer keeps the rows of the sidebar in order: those of one server stand
/// together, and the new one stands behind the others of its server.
pub proof fn law_sidebar_stays_in_order(
    workspace: WorkspaceView,
    server: Seq<char>,
    target: Seq<char>,
)
    requires
        workspace.wf(),
    ensures
        workspace.opened(server, target).0.wf(),
        workspace.opened(server, target).0.rows.contains(key_of(server, target)),
        0 <= workspace.position(server) <= workspace.rows.len(),
{
    let key = key_of(server, target);
    let order = workspace.servers.order;
    let lists = workspace.servers.lists;
    let next = workspace.opened(server, target).0;
    let list = workspace.servers.get(server).push(key);
    if lists.contains_key(server) {
        assert(order.contains(server));
        let at = order.index_of(server);
        assert(0 <= at < order.len() && order[at] == server);
        lemma_flat_push(order, lists, at, key);
        if !workspace.rows.contains(key) {
            lemma_insert_distinct(workspace.rows, workspace.position(server), key);
            assert(next.rows[workspace.position(server)] == key);
        }
        assert(workspace.servers.set(server, list).order == order);
    } else {
        assert(!order.contains(server));
        lemma_flat_other(order, lists, server, list);
        let more = order.push(server);
        assert(more.drop_last() =~= order);
        assert(flat(more, lists.insert(server, list)) =~= workspace.rows + seq![key]);
        assert(workspace.rows.insert(workspace.rows.len() as int, key) =~= workspace.rows
            + seq![key]);
        if !workspace.rows.contains(key) {
            lemma_insert_distinct(workspace.rows, workspace.position(server), key);
            assert(next.rows[workspace.rows.len() as int] == key);
        }
        assert(more.no_duplicates()) by {
            assert forall|i: int, j: int|
                0 <= i < more.len() && 0 <= j < more.len() && i != j implies more[i] != more[j] by {
                if i == order.len() {
                    assert(order.contains(order[j]));
                } else if j == order.len() {
                    assert(order.contains(order[i]));
                }
            }
        }
    }
    lemma_set_wf(workspace.servers, server, list);
}

/// Rows keep their order: what stood among the rows of a server before a buffer was opened
/// still comes first, in the same order. So the row of the server itself, opened first, stays
/// above the rows of its channels, which come in the order in which they were opened.
pub proof fn law_rows_keep_their_order(
    workspace: WorkspaceView,
    server: Seq<char>,
    target: Seq<char>,
    other: Seq<char>,
)
    ensures
        ({
            let was = workspace.servers.get(other);
            let is = workspace.opened(server, target).0.servers.get(other);
            &&& was.len() <= is.len()
            &&& is.take(was.len() as int) == was
            &&& other != server ==> is == was
        }),
{
    let was = workspace.servers.get(other);
    let is = workspace.opened(server, target).0.servers.get(other);
    assert(is.take(was.len() as int) =~= was);
}

/// Opening a buffer a second time changes nothing.
pub proof fn law_a_buffer_is_opened_once(
    workspace: WorkspaceView,
    server: Seq<char>,
    target: Seq<char>,
)
    requires
        workspace.wf(),
    ensures
        workspace.opened(server, target).0.opened(server, target) == (
            workspace.opened(server, target).0,
            None::<NewRowView>,
        ),
{
    law_sidebar_stays_in_order(workspace, server, target);
}

/// Once the servers of a configuration are opened, each of them has one row, its own.
pub proof fn law_every_server_has_its_row(servers: Seq<Seq<char>>, server: Seq<char>)
    ensures
        ({
            let opened = WorkspaceView::blank().opened_servers(servers).0;
            &&& opened.wf()
            &&& opened.servers.lists.contains_key(server) <==> servers.contains(server)
            &&& servers.contains(server) ==> opened.servers.get(server) == seq![
                key_of(server, SERVER_TARGET@),
            ]
        }),
    decreases servers.len(),
{
    let blank = WorkspaceView::blank();
    if servers.len() == 0 {
        assert(flat(blank.servers.order, blank.servers.lists) =~= blank.rows);
    } else {
        let fewer = servers.drop_last();
        let last = servers.last();
        law_every_server_has_its_row(fewer, server);
        law_every_server_has_its_row(fewer, last);
        assert(servers =~= fewer.push(last));
        lemma_push_contains(fewer, last, server);
        let before = blank.opened_servers(fewer).0;
        law_sidebar_stays_in_order(before, last, SERVER_TARGET@);
        lemma_only_own_rows(fewer, key_of(last, SERVER_TARGET@));
        if before.rows.contains(key_of(last, SERVER_TARGET@)) {
            let other = choose|other: Seq<char>| #[trigger]
                fewer.contains(other) && key_of(other, SERVER_TARGET@) == key_of(
                    last,
                    SERVER_TARGET@,
                );
            lemma_own_keys_differ(other, last);
        } else if fewer.contains(last) {
            let at = before.servers.order.index_of(last);
            assert(before.servers.order.contains(last));
            assert(0 <= at < before.servers.order.len() && before.servers.order[at] == last);
            assert(before.servers.lists[last][0] == key_of(last, SERVER_TARGET@));
            lemma_flat_holds(
                before.servers.order,
                before.servers.lists,
                at,
                key_of(last, SERVER_TARGET@),
            );
        } else {
            assert(before.servers.get(last) =~= Seq::<Seq<char>>::empty());
            assert(Seq::<Seq<char>>::empty().push(key_of(last, SERVER_TARGET@)) =~= seq![
                key_of(last, SERVER_TARGET@),
            ]);
        }
    }
}

/// The keys of the rows of two servers themselves are the same only for the same server.
pub(crate) proof fn lemma_own_keys_differ(a: Seq<char>, b: Seq<char>)
    requires
        key_of(a, SERVER_TARGET@) == key_of(b, SERVER_TARGET@),
    ensures
        a == b,
{
    let x = key_of(a, SERVER_TARGET@);
    let y = key_of(b, SERVER_TARGET@);
    assert(x.len() == a.len() + 1 + SERVER_TARGET@.len());
    assert(y.len() == b.len() + 1 + SERVER_TARGET@.len());
    assert(a =~= x.take(a.len() as int));
    assert(b =~= y.take(b.len() as int));
}

/// Only rows of servers themselves are there once servers are opened.
pub(crate) proof fn lemma_only_own_rows(servers: Seq<Seq<char>>, key: Seq<char>)
    ensures
        WorkspaceView::blank().opened_servers(servers).0.rows.contains(key) ==> exists|
            server: Seq<char>,
        | #[trigger] servers.contains(server) && key_of(server, SERVER_TARGET@) == key,
    decreases servers.len(),
{
    if servers.len() > 0 {
        let fewer = servers.drop_last();
        let last = servers.last();
        lemma_only_own_rows(fewer, key);
        law_every_server_has_its_row(fewer, last);
        let before = WorkspaceView::blank().opened_servers(fewer).0;
        law_sidebar_stays_in_order(before, last, SERVER_TARGET@);
        let next = before.opened(last, SERVER_TARGET@).0;
        assert(servers =~= fewer.push(last));
        lemma_push_contains(fewer, last, last);
        if next.rows.contains(key) && !before.rows.contains(key) {
            let i = choose|i: int| 0 <= i < next.rows.len() && next.rows[i] == key;
            let at = before.position(last);
            if i < at {
                assert(before.rows[i] == key);
            } else if i > at {
                assert(before.rows[i - 1] == key);
            }
            assert(key_of(last, SERVER_TARGET@) == key);
            assert(servers.contains(last));
        } else if before.rows.contains(key) {
            let server = choose|server: Seq<char>| #[trigger]
                fewer.contains(server) && key_of(server, SERVER_TARGET@) == key;
            lemma_push_contains(fewer, last, server);
            assert(servers.contains(server));
        }
    }
}

/// The rows of a server are among all rows.
pub(crate) proof fn lemma_flat_holds(
    servers: Seq<Seq<char>>,
    rows: Map<Seq<char>, Seq<Seq<char>>>,
    at: int,
    key: Seq<char>,
)
    requires
        0 <= at < servers.len(),
        rows[servers[at]].contains(key),
    ensures
        flat(servers, rows).contains(key),
    decreases servers.len(),
{
    let part = flat(servers.drop_last(), rows);
    let own = rows[servers.last()];
    if at == servers.len() - 1 {
        let i = choose|i: int| 0 <= i < own.len() && own[i] == key;
        assert(flat(servers, rows)[part.len() + i] == key);
    } else {
        lemma_flat_holds(servers.drop_last(), rows, at, key);
        let i = choose|i: int| 0 <= i < part.len() && part[i] == key;
        assert(flat(servers, rows)[i] == key);
    }
}

/// The members that are shown of a channel replace those that were shown before, and touch no
/// other channel.
pub proof fn law_members_are_replaced(
    workspace: WorkspaceView,
    server: Seq<char>,
    channel: Seq<char>,
    nicks: Seq<Seq<char>>,
    away: Seq<Seq<char>>,
    other: Seq<char>,
)
    ensures
        ({
            let next = workspace.with_names(server, channel, nicks, away);
            &&& next.nicks.get(key_of(server, channel)) == nicks
            &&& next.away.get(key_of(server, channel)) == away
            &&& other != key_of(server, channel) ==> {
                &&& next.nicks.get(other) == workspace.nicks.get(other)
                &&& next.away.get(other) == workspace.away.get(other)
            }
        }),
{
}

/// The window's state.
pub struct Workspace {
    rows: Vec<String>,
    servers: Roster,
    nicks: Roster,
    away: Roster,
    server: String,
    target: String,
    connections: Vec<String>,
}

impl View for Workspace {
    type V = WorkspaceView;

    closed spec fn view(&self) -> WorkspaceView {
        WorkspaceView {
            rows: texts(self.rows@),
            servers: self.servers@,
            nicks: self.nicks@,
            away: self.away@,
            selected: (self.server@, self.target@),
            connections: texts(self.connections@),
        }
    }
}

/// The names of the servers of a configuration.
pub open spec fn server_names(config: AppConfig) -> Seq<Seq<char>> {
    Seq::new(config.servers@.len(), |i: int| config.servers@[i].name@)
}

impl Workspace {
    /// The sidebar is in order.
    pub closed spec fn wf(&self) -> bool {
        &&& self.servers.wf()
        &&& self.nicks.wf()
        &&& self.away.wf()
        &&& self@.wf()
    }

    /// A sidebar in order shows the rows of one server behind those of another, and no row
    /// twice.
    pub proof fn lemma_wf(&self)
        requires
            self.wf(),
        ensures
            self@.wf(),
    {
    }

    /// A window with nothing in it.
    pub fn new() -> (workspace: Workspace)
        ensures
            workspace.wf(),
            workspace@ == WorkspaceView::blank(),
    {
        let workspace = Workspace {
            rows: Vec::new(),
            servers: Roster::new(),
            nicks: Roster::new(),
            away: Roster::new(),
            server: String::new(),
            target: String::new(),
            connections: Vec::new(),
        };
        assert(workspace@ =~= WorkspaceView::blank());
        workspace
    }

    /// How many rows the sidebar has.
    pub fn row_count(&self) -> (count: usize)
        ensures
            count == self@.rows.len(),
    {
        self.rows.len()
    }

    /// Where a new row of `server` is put.
    fn position(&self, server: &str) -> (position: usize)
        requires
            self.wf(),
        ensures
            position == self@.position(server@),
            position <= self.rows.len(),
    {
        let names = self.servers.names();
        let ghost order = self@.servers.order;
        let ghost lists = self@.servers.lists;
        let mut above: usize = 0;
        let mut i: usize = 0;
        while i < names.len()
            invariant
                self.wf(),
                i <= names.len(),
                texts(names@) == order,
                order == self@.servers.order,
                lists == self@.servers.lists,
                above == flat(order.take(i as int), lists).len(),
                above <= self.rows.len(),
                forall|j: int| 0 <= j < i ==> order[j] != server@,
            decreases names.len() - i,
        {
            let list = self.servers.get(names[i].as_str());
            proof {
                assert(order[i as int] == names@[i as int]@);
                assert(order.contains(order[i as int]));
                assert(order.take(i + 1).drop_last() =~= order.take(i as int));
                lemma_flat_take(order, lists, i + 1);
                assert(texts(list@).len() == list@.len());
                assert(self@.rows.len() == self.rows.len());
            }
            above = above + list.len();
            if same(names[i].as_str(), server) {
                proof {
                    let at = order.index_of(server@);
                    assert(0 <= at < order.len() && order[at] == server@);
                    assert(at == i);
                }
                return above;
            }
            i += 1;
        }
        proof {
            assert(order.take(i as int) =~= order);
            assert(!order.contains(server@));
        }
        above
    }

    /// Opens the buffer of `target` on `server`, and says which row to put into the sidebar
    /// for it, if it has none.
    pub fn open(&mut self, server: &str, target: &str) -> (row: Option<NewRow>)
        requires
            old(self).wf(),
            old(self)@.rows.len() <= i32::MAX,
        ensures
            final(self).wf(),
            (final(self)@, optional_row(row)) == old(self)@.opened(server@, target@),
    {
        proof {
            law_sidebar_stays_in_order(self@, server@, target@);
        }
        let key = key(server, target);
        if holds(&self.rows, key.as_str()) {
            return None;
        }
        let position: usize = self.position(server);
        let ghost start = texts(self.rows@);
        self.rows.insert(position, key.clone());
        assert(texts(self.rows@) =~= start.insert(position as int, key@));
        self.servers.add(server, key.as_str());
        let label = if same(target, SERVER_TARGET) {
            cat("\u{25be} ", server)
        } else {
            cat("    ", target)
        };
        assert(self@ =~= old(self)@.opened(server@, target@).0);
        Some(NewRow { key, label, position: position as i32 })
    }

    /// Opens the rows of the configured servers, in the order of the configuration, and
    /// selects the first one. Says which rows to put into the sidebar.
    pub fn start(config: &AppConfig) -> (started: (Workspace, Vec<NewRow>))
        requires
            config.servers@.len() <= i32::MAX,
        ensures
            started.0.wf(),
            started.0@ == WorkspaceView::started(server_names(*config)),
            new_rows(started.1@) == WorkspaceView::blank().opened_servers(
                server_names(*config),
            ).1,
    {
        let mut workspace = Workspace::new();
        let mut rows: Vec<NewRow> = Vec::new();
        let mut connections: Vec<String> = Vec::new();
        let ghost names = server_names(*config);
        let mut i: usize = 0;
        proof {
            assert(names.take(0) =~= Seq::<Seq<char>>::empty());
            assert(new_rows(rows@) =~= Seq::<NewRowView>::empty());
            assert(texts(connections@) =~= names.take(0));
        }
        while i < config.servers.len()
            invariant
                i <= config.servers.len() <= i32::MAX,
                names == server_names(*config),
                workspace.wf(),
                workspace@.rows.len() <= i,
                workspace@.selected == (Seq::<char>::empty(), Seq::<char>::empty()),
                texts(connections@) == names.take(i as int),
                (workspace@, new_rows(rows@)) == WorkspaceView::blank().opened_servers(
                    names.take(i as int),
                ),
            decreases config.servers.len() - i,
        {
            proof {
                assert(names.take(i + 1).drop_last() =~= names.take(i as int));
                assert(names.take(i + 1).last() == config.servers@[i as int].name@);
                law_sidebar_stays_in_order(
                    workspace@,
                    config.servers@[i as int].name@,
                    SERVER_TARGET@,
                );
            }
            let ghost was = rows@;
            let name = config.servers[i].name.clone();
            proof {
                lemma_texts_push(connections@, name);
                assert(names.take(i + 1) =~= names.take(i as int).push(name@));
            }
            connections.push(name);
            match workspace.open(config.servers[i].name.as_str(), SERVER_TARGET) {
                Some(row) => {
                    rows.push(row);
                    assert(new_rows(rows@) =~= new_rows(was).push(row@));
                },
                None => {},
            }
            i += 1;
        }
        assert(names.take(i as int) =~= names);
        if config.servers.len() > 0 {
            workspace.server = config.servers[0].name.clone();
            workspace.target = SERVER_TARGET.to_owned();
        }
        workspace.connections = connections;
        assert(workspace@ =~= WorkspaceView::started(names));
        (workspace, rows)
    }

    /// Takes in which row was selected, by its key.
    pub fn select(&mut self, key: &str)
        requires
            old(self).wf(),
        ensures
            final(self).wf(),
            final(self)@ == old(self)@.with_selected(key@),
    {
        let (server, target) = split_key(key);
        self.server = server;
        self.target = target;
    }

    /// The server and the target that are selected.
    pub fn selected(&self) -> (parts: (String, String))
        ensures
            (parts.0@, parts.1@) == self@.selected,
    {
        (self.server.clone(), self.target.clone())
    }

    /// The members to list for what is selected, and those of them who are away: none where
    /// no channel is selected whose members are known.
    pub fn members_in_sight(&self) -> (lists: (Vec<String>, Vec<String>))
        requires
            self.wf(),
        ensures
            (texts(lists.0@), texts(lists.1@)) == self@.in_sight(),
    {
        let key = key(self.server.as_str(), self.target.as_str());
        (self.nicks.get(key.as_str()), self.away.get(key.as_str()))
    }

    /// What to hand to which connection for the text that the user has entered: nothing for
    /// an empty text, or where there is no connection to the server that is selected; else the
    /// text for the target that is selected, to the server that is selected.
    pub fn submit(&self, text: &str) -> (sent: Option<(String, String)>)
        ensures
            match sent {
                Some((server, line)) => text@.len() > 0 && self@.connections.contains(
                    self@.selected.0,
                ) && server@ == self@.selected.0 && line@ == packed(self@.selected.1, text@),
                None => text@.len() == 0 || !self@.connections.contains(self@.selected.0),
            },
    {
        if text.is_empty() || !holds(&self.connections, self.server.as_str()) {
            None
        } else {
            Some((self.server.clone(), pack(self.target.as_str(), text)))
        }
    }

    /// Takes in something to show at the time `stamp`, and says what the window does.
    pub fn apply(&mut self, event: IrcEvent, stamp: &str) -> (update: Update)
        requires
            old(self).wf(),
            old(self)@.rows.len() <= i32::MAX,
        ensures
            final(self).wf(),
            (final(self)@, update@) == old(self)@.after(event@, stamp@),
    {
        match event {
            IrcEvent::Line { server, target, text } => {
                let row = self.open(server.as_str(), target.as_str());
                let scroll = same(self.server.as_str(), server.as_str()) && same(
                    self.target.as_str(),
                    target.as_str(),
                );
                Update::Append {
                    row,
                    key: key(server.as_str(), target.as_str()),
                    text: stamped(stamp, text.as_str()),
                    scroll,
                }
            },
            IrcEvent::Names { server, channel, nicks, away } => {
                let key = key(server.as_str(), channel.as_str());
                proof {
                    lemma_set_wf(self@.nicks, key@, texts(nicks@));
                    lemma_set_wf(self@.away, key@, texts(away@));
                }
                self.nicks.set(key.as_str(), nicks);
                self.away.set(key.as_str(), away);
                let refresh = same(self.server.as_str(), server.as_str()) && same(
                    self.target.as_str(),
                    channel.as_str(),
                );
                Update::Members { refresh }
            },
        }
    }
}

/// What is stated of what the window does is stated of all of it.
pub proof fn law_nothing_is_left_out_of_an_update(update: Update, new: NewRow)
    ensures
        new@.key == new.key@,
        new@.label == new.label@,
        new@.position == new.position,
        update matches Update::Append { row, key, text, scroll } ==> {
            &&& update@ matches UpdateView::Append { row: r, key: k, text: t, scroll: s }
            &&& k == key@
            &&& t == text@
            &&& s == scroll
            &&& row matches Some(given) ==> r == Some(given@)
            &&& row is None ==> r is None
        },
        update matches Update::Members { refresh } ==> update@ == (UpdateView::Members { refresh }),
{
}

} // verus!
