//! What holds of the window in the course of a run, whatever is shown and selected.

use crate::events::{IrcEventView, SERVER_TARGET};
use crate::roster::lemma_set_wf;
use crate::sorting::lemma_push_contains;
use crate::text::{after, before, lemma_first_at, lemma_split_joined};
use crate::workspace::{
    flat, key_of, law_every_server_has_its_row, law_keys_differ, law_sidebar_stays_in_order,
    lemma_flat_holds, lemma_only_own_rows, lemma_own_keys_differ, UpdateView, WorkspaceView, KEY_SEP,
};
use vstd::prelude::*;

verus! {

/// Something that happens to the window.
pub enum Step {
    /// Something is shown, at the time `stamp`.
    Shown { event: IrcEventView, stamp: Seq<char> },
    /// A row is selected, by its key.
    Selected { key: Seq<char> },
}

impl WorkspaceView {
    /// What becomes of the window by `step`.
    pub open spec fn stepped(self, step: Step) -> WorkspaceView {
        match step {
            Step::Shown { event, stamp } => self.after(event, stamp).0,
            Step::Selected { key } => self.with_selected(key),
        }
    }

    /// What becomes of the window by `steps`, one after the other.
    pub open spec fn run(self, steps: Seq<Step>) -> WorkspaceView
        decreases steps.len(),
    {
        if steps.len() == 0 {
            self
        } else {
            self.run(steps.drop_last()).stepped(steps.last())
        }
    }
}

/// The server and the target of the line that a step shows, where it shows one.
pub open spec fn line_in(step: Step) -> Option<(Seq<char>, Seq<char>)> {
    match step {
        Step::Shown { event: IrcEventView::Line { server, target, .. }, .. } => Some(
            (server, target),
        ),
        _ => None,
    }
}

/// The server and the channel whose members a step shows, where it shows members.
pub open spec fn channel_in(step: Step) -> Option<(Seq<char>, Seq<char>)> {
    match step {
        Step::Shown { event: IrcEventView::Names { server, channel, .. }, .. } => Some(
            (server, channel),
        ),
        _ => None,
    }
}

/// Every line comes from one of `servers`.
pub open spec fn lines_from(servers: Seq<Seq<char>>, steps: Seq<Step>) -> bool {
    forall|i: int|
        0 <= i < steps.len() ==> match line_in(#[trigger] steps[i]) {
            Some((server, _)) => servers.contains(server),
            None => true,
        }
}

/// The targets of `server` that have a row after `steps`: the server itself, and the others in
/// the order in which the first line of each came.
pub open spec fn targets_of(steps: Seq<Step>, server: Seq<char>) -> Seq<Seq<char>>
    decreases steps.len(),
{
    if steps.len() == 0 {
        seq![SERVER_TARGET@]
    } else {
        let known = targets_of(steps.drop_last(), server);
        match line_in(steps.last()) {
            Some((from, target)) => if from == server && !known.contains(target) {
                known.push(target)
            } else {
                known
            },
            None => known,
        }
    }
}

/// The keys of `targets` of `server`.
pub open spec fn group(server: Seq<char>, targets: Seq<Seq<char>>) -> Seq<Seq<char>> {
    targets.map_values(|target: Seq<char>| key_of(server, target))
}

/// The keys of the targets of `servers` after `steps`, one server behind the other.
pub open spec fn groups(servers: Seq<Seq<char>>, steps: Seq<Step>) -> Seq<Seq<char>>
    decreases servers.len(),
{
    if servers.len() == 0 {
        Seq::empty()
    } else {
        groups(servers.drop_last(), steps) + group(
            servers.last(),
            targets_of(steps, servers.last()),
        )
    }
}

/// No two targets that have a row after `steps` have the same key.
pub open spec fn rows_have_keys(servers: Seq<Seq<char>>, steps: Seq<Step>) -> bool {
    forall|s: Seq<char>, t: Seq<char>, s2: Seq<char>, t2: Seq<char>|
        #![trigger targets_of(steps, s).contains(t), targets_of(steps, s2).contains(t2)]
        servers.contains(s) && servers.contains(s2) && targets_of(steps, s).contains(t)
            && targets_of(steps, s2).contains(t2) && key_of(s, t) == key_of(s2, t2) ==> s == s2
            && t == t2
}

/// What had a row keeps it.
proof fn lemma_targets_grow(steps: Seq<Step>, server: Seq<char>, target: Seq<char>)
    requires
        steps.len() > 0,
        targets_of(steps.drop_last(), server).contains(target),
    ensures
        targets_of(steps, server).contains(target),
{
    let known = targets_of(steps.drop_last(), server);
    if let Some((from, new)) = line_in(steps.last()) {
        lemma_push_contains(known, new, target);
    }
}

/// Servers of different names come in the order of the configuration.
proof fn lemma_started_order(servers: Seq<Seq<char>>)
    requires
        servers.no_duplicates(),
    ensures
        WorkspaceView::blank().opened_servers(servers).0.servers.order == servers,
    decreases servers.len(),
{
    let blank = WorkspaceView::blank();
    if servers.len() == 0 {
        assert(servers =~= Seq::<Seq<char>>::empty());
    } else {
        let fewer = servers.drop_last();
        let last = servers.last();
        assert(fewer.no_duplicates());
        lemma_started_order(fewer);
        let was = blank.opened_servers(fewer).0;
        let key = key_of(last, SERVER_TARGET@);
        assert(!fewer.contains(last)) by {
            if fewer.contains(last) {
                let i = choose|i: int| 0 <= i < fewer.len() && fewer[i] == last;
                assert(servers[i] == servers[servers.len() - 1]);
            }
        }
        law_every_server_has_its_row(fewer, last);
        lemma_only_own_rows(fewer, key);
        if was.rows.contains(key) {
            let other = choose|other: Seq<char>| #[trigger]
                fewer.contains(other) && key_of(other, SERVER_TARGET@) == key;
            lemma_own_keys_differ(other, last);
        }
        assert(fewer.push(last) =~= servers);
    }
}

/// A row in the sidebar is the row of one of the servers.
proof fn lemma_flat_from(
    servers: Seq<Seq<char>>,
    rows: Map<Seq<char>, Seq<Seq<char>>>,
    key: Seq<char>,
) -> (server: Seq<char>)
    requires
        flat(servers, rows).contains(key),
    ensures
        servers.contains(server),
        rows[server].contains(key),
    decreases servers.len(),
{
    let part = flat(servers.drop_last(), rows);
    let own = rows[servers.last()];
    let all = flat(servers, rows);
    let i = choose|i: int| 0 <= i < all.len() && all[i] == key;
    if i < part.len() {
        assert(part[i] == key);
        let server = lemma_flat_from(servers.drop_last(), rows, key);
        let k = choose|k: int|
            0 <= k < servers.drop_last().len() && servers.drop_last()[k] == server;
        assert(servers[k] == server);
        server
    } else {
        assert(own[i - part.len()] == key);
        assert(servers[servers.len() - 1] == servers.last());
        servers.last()
    }
}

/// Lists that are the groups of their servers make up the groups of all.
proof fn lemma_flat_groups(
    servers: Seq<Seq<char>>,
    rows: Map<Seq<char>, Seq<Seq<char>>>,
    steps: Seq<Step>,
)
    requires
        forall|s: Seq<char>| #[trigger]
            servers.contains(s) ==> rows[s] == group(s, targets_of(steps, s)),
    ensures
        flat(servers, rows) == groups(servers, steps),
    decreases servers.len(),
{
    if servers.len() > 0 {
        let fewer = servers.drop_last();
        assert forall|s: Seq<char>| #[trigger] fewer.contains(s) implies rows[s] == group(
            s,
            targets_of(steps, s),
        ) by {
            let k = choose|k: int| 0 <= k < fewer.len() && fewer[k] == s;
            assert(servers[k] == s);
            assert(servers.contains(s));
        }
        lemma_flat_groups(fewer, rows, steps);
        assert(servers[servers.len() - 1] == servers.last());
        assert(servers.contains(servers.last()));
    }
}

/// What the window holds of its rows in the course of a run.
proof fn lemma_rows_of_a_run(servers: Seq<Seq<char>>, steps: Seq<Step>)
    requires
        servers.no_duplicates(),
        lines_from(servers, steps),
        rows_have_keys(servers, steps),
    ensures
        ({
            let window = WorkspaceView::started(servers).run(steps);
            &&& window.wf()
            &&& window.servers.order == servers
            &&& forall|s: Seq<char>| #[trigger]
                servers.contains(s) ==> window.servers.get(s) == group(s, targets_of(steps, s))
        }),
    decreases steps.len(),
{
    let start = WorkspaceView::started(servers);
    let window = start.run(steps);
    if steps.len() == 0 {
        let opened = WorkspaceView::blank().opened_servers(servers).0;
        lemma_started_order(servers);
        law_every_server_has_its_row(servers, Seq::empty());
        assert forall|s: Seq<char>| #[trigger] servers.contains(s) implies window.servers.get(s)
            == group(s, targets_of(steps, s)) by {
            law_every_server_has_its_row(servers, s);
            assert(group(s, targets_of(steps, s)) =~= seq![key_of(s, SERVER_TARGET@)]);
        }
    } else {
        let fewer = steps.drop_last();
        let was = start.run(fewer);
        assert(lines_from(servers, fewer)) by {
            assert forall|i: int| 0 <= i < fewer.len() implies match line_in(
                #[trigger] fewer[i],
            ) {
                Some((server, _)) => servers.contains(server),
                None => true,
            } by {
                assert(fewer[i] == steps[i]);
            }
        }
        assert(rows_have_keys(servers, fewer)) by {
            assert forall|s: Seq<char>, t: Seq<char>, s2: Seq<char>, t2: Seq<char>|
                #![trigger targets_of(fewer, s).contains(t), targets_of(fewer, s2).contains(t2)]
                servers.contains(s) && servers.contains(s2) && targets_of(fewer, s).contains(t)
                    && targets_of(fewer, s2).contains(t2) && key_of(s, t) == key_of(
                    s2,
                    t2,
                ) implies s == s2 && t == t2 by {
                lemma_targets_grow(steps, s, t);
                lemma_targets_grow(steps, s2, t2);
            }
        }
        lemma_rows_of_a_run(servers, fewer);
        assert(steps[steps.len() - 1] == steps.last());
        match steps.last() {
            Step::Selected { key } => {},
            Step::Shown { event: IrcEventView::Names { server, channel, nicks, away }, .. } => {
                lemma_set_wf(was.nicks, key_of(server, channel), nicks);
                lemma_set_wf(was.away, key_of(server, channel), away);
            },
            Step::Shown { event: IrcEventView::Line { server, target, .. }, .. } => {
                lemma_line_of_a_run(servers, steps, was, server, target);
            },
        }
    }
}

/// A line opens the row of its target, or finds it.
proof fn lemma_line_of_a_run(
    servers: Seq<Seq<char>>,
    steps: Seq<Step>,
    was: WorkspaceView,
    server: Seq<char>,
    target: Seq<char>,
)
    requires
        steps.len() > 0,
        line_in(steps.last()) == Some((server, target)),
        servers.contains(server),
        rows_have_keys(servers, steps),
        was.wf(),
        was.servers.order == servers,
        forall|s: Seq<char>| #[trigger]
            servers.contains(s) ==> was.servers.get(s) == group(
                s,
                targets_of(steps.drop_last(), s),
            ),
    ensures
        ({
            let window = was.opened(server, target).0;
            &&& window.wf()
            &&& window.servers.order == servers
            &&& forall|s: Seq<char>| #[trigger]
                servers.contains(s) ==> window.servers.get(s) == group(s, targets_of(steps, s))
        }),
{
    let fewer = steps.drop_last();
    let window = was.opened(server, target).0;
    let key = key_of(server, target);
    let known = targets_of(fewer, server);
    law_sidebar_stays_in_order(was, server, target);
    assert(was.servers.order.contains(server) <==> was.servers.lists.contains_key(server));
    lemma_push_contains(known, target, target);
    if known.contains(target) {
        let k = choose|k: int| 0 <= k < known.len() && known[k] == target;
        assert(was.servers.get(server)[k] == key);
        lemma_row_is_there(was, server, key);
    } else if was.rows.contains(key) {
        let other = lemma_flat_from(servers, was.servers.lists, key);
        assert(was.servers.order.contains(other) <==> was.servers.lists.contains_key(other));
        let theirs = targets_of(fewer, other);
        assert(was.servers.get(other) == group(other, theirs));
        let k = choose|k: int| 0 <= k < theirs.len() && group(other, theirs)[k] == key;
        assert(theirs.contains(theirs[k]));
        lemma_targets_grow(steps, other, theirs[k]);
        assert(targets_of(steps, server).contains(target));
        assert(key_of(other, theirs[k]) == key_of(server, target));
        assert(false);
    }
    assert forall|s: Seq<char>| #[trigger] servers.contains(s) implies window.servers.get(s)
        == group(s, targets_of(steps, s)) by {
        assert(was.servers.order.contains(s) <==> was.servers.lists.contains_key(s));
        if s == server && !known.contains(target) {
            assert(group(s, known.push(target)) =~= group(s, known).push(key));
        }
    }
}

/// The rows of a server are in the sidebar.
proof fn lemma_row_is_there(window: WorkspaceView, server: Seq<char>, key: Seq<char>)
    requires
        window.wf(),
        window.servers.get(server).contains(key),
    ensures
        window.rows.contains(key),
{
    let order = window.servers.order;
    assert(order.contains(server) <==> window.servers.lists.contains_key(server));
    let at = choose|at: int| 0 <= at < order.len() && order[at] == server;
    lemma_flat_holds(order, window.servers.lists, at, key);
}

/// Whatever is shown and selected in the course of a run, the rows of the sidebar are grouped
/// by server, the groups in the order of the configuration. Each group has the row of the
/// server itself first, then its other targets in the order in which their first lines came.
/// No row is there twice, and members that are shown add none. This holds wherever the keys of
/// the rows differ.
pub proof fn law_sidebar_where_keys_differ(servers: Seq<Seq<char>>, steps: Seq<Step>)
    requires
        servers.no_duplicates(),
        lines_from(servers, steps),
        rows_have_keys(servers, steps),
    ensures
        WorkspaceView::started(servers).run(steps).rows == groups(servers, steps),
        groups(servers, steps).no_duplicates(),
        WorkspaceView::started(servers).run(steps).wf(),
{
    lemma_rows_of_a_run(servers, steps);
    let window = WorkspaceView::started(servers).run(steps);
    assert forall|s: Seq<char>| #[trigger] servers.contains(s) implies window.servers.lists[s]
        == group(s, targets_of(steps, s)) by {
        assert(window.servers.order.contains(s) <==> window.servers.lists.contains_key(s));
    }
    lemma_flat_groups(servers, window.servers.lists, steps);
}

/// The same of servers whose names do not hold the separator of keys, as no name of a server
/// does: the rows of the sidebar are grouped by server, in the order of the configuration, each
/// server first and then its targets in the order in which their first lines came, and no row
/// is there twice.
pub proof fn law_sidebar_over_a_run(servers: Seq<Seq<char>>, steps: Seq<Step>)
    requires
        servers.no_duplicates(),
        forall|i: int| 0 <= i < servers.len() ==> !(#[trigger] servers[i]).contains(KEY_SEP),
        lines_from(servers, steps),
    ensures
        WorkspaceView::started(servers).run(steps).rows == groups(servers, steps),
        groups(servers, steps).no_duplicates(),
{
    assert forall|s: Seq<char>, t: Seq<char>, s2: Seq<char>, t2: Seq<char>|
        #![trigger targets_of(steps, s).contains(t), targets_of(steps, s2).contains(t2)]
        servers.contains(s) && servers.contains(s2) && targets_of(steps, s).contains(t)
            && targets_of(steps, s2).contains(t2) && key_of(s, t) == key_of(s2, t2) implies s == s2
        && t == t2 by {
        let i = choose|i: int| 0 <= i < servers.len() && servers[i] == s;
        let j = choose|j: int| 0 <= j < servers.len() && servers[j] == s2;
        assert(!servers[i].contains(KEY_SEP) && !servers[j].contains(KEY_SEP));
        law_keys_differ(s, t, s2, t2);
    }
    law_sidebar_where_keys_differ(servers, steps);
}

/// A window that puts in the rows that it is told to, where it is told to, shows the rows of
/// the sidebar as they are.
pub proof fn law_new_rows_are_all(
    workspace: WorkspaceView,
    event: IrcEventView,
    stamp: Seq<char>,
)
    ensures
        ({
            let (next, update) = workspace.after(event, stamp);
            next.rows == match update {
                UpdateView::Append { row: Some(row), .. } => workspace.rows.insert(
                    row.position,
                    row.key,
                ),
                _ => workspace.rows,
            }
        }),
{
}

/// The last members that were shown of `channel` on `server`, and those of them who are away.
pub open spec fn last_shown(
    steps: Seq<Step>,
    server: Seq<char>,
    channel: Seq<char>,
) -> Option<(Seq<Seq<char>>, Seq<Seq<char>>)>
    decreases steps.len(),
{
    if steps.len() == 0 {
        None
    } else {
        match steps.last() {
            Step::Shown {
                event: IrcEventView::Names { server: s, channel: c, nicks, away },
                ..
            } if s == server && c == channel => Some((nicks, away)),
            _ => last_shown(steps.drop_last(), server, channel),
        }
    }
}

/// What is selected after `steps`: what was selected last, or at the start the first server.
pub open spec fn last_selected(servers: Seq<Seq<char>>, steps: Seq<Step>) -> (Seq<char>, Seq<char>)
    decreases steps.len(),
{
    if steps.len() == 0 {
        WorkspaceView::started(servers).selected
    } else {
        match steps.last() {
            Step::Selected { key } => (before(key, KEY_SEP), after(key, KEY_SEP)),
            _ => last_selected(servers, steps.drop_last()),
        }
    }
}

/// What the list of members holds after `steps`. It is empty at the start, and is filled anew
/// whenever a row is selected, and whenever the window is told to.
pub open spec fn listed(servers: Seq<Seq<char>>, steps: Seq<Step>) -> (
    Seq<Seq<char>>,
    Seq<Seq<char>>,
)
    decreases steps.len(),
{
    if steps.len() == 0 {
        (Seq::empty(), Seq::empty())
    } else {
        let fewer = steps.drop_last();
        let start = WorkspaceView::started(servers);
        let filled = match steps.last() {
            Step::Selected { .. } => true,
            Step::Shown { event, stamp } => start.run(fewer).after(event, stamp).1 == (
            UpdateView::Members { refresh: true }),
        };
        if filled {
            start.run(steps).in_sight()
        } else {
            listed(servers, fewer)
        }
    }
}

/// No other channel whose members are shown has the key of `target` on `server`.
pub open spec fn has_own_key(steps: Seq<Step>, server: Seq<char>, target: Seq<char>) -> bool {
    forall|i: int|
        0 <= i < steps.len() ==> match channel_in(#[trigger] steps[i]) {
            Some((s, c)) => key_of(s, c) == key_of(server, target) ==> s == server && c == target,
            None => true,
        }
}

/// What the window knows of a channel is what was shown of it last.
proof fn lemma_known_of_channel(
    servers: Seq<Seq<char>>,
    steps: Seq<Step>,
    server: Seq<char>,
    target: Seq<char>,
)
    requires
        has_own_key(steps, server, target),
    ensures
        ({
            let window = WorkspaceView::started(servers).run(steps);
            let key = key_of(server, target);
            &&& window.selected == last_selected(servers, steps)
            &&& (window.nicks.get(key), window.away.get(key)) == last_shown(
                steps,
                server,
                target,
            ).unwrap_or((Seq::empty(), Seq::empty()))
        }),
    decreases steps.len(),
{
    if steps.len() == 0 {
        lemma_no_members_at_start(servers);
    } else {
        let fewer = steps.drop_last();
        assert(has_own_key(fewer, server, target)) by {
            assert forall|i: int| 0 <= i < fewer.len() implies match channel_in(
                #[trigger] fewer[i],
            ) {
                Some((s, c)) => key_of(s, c) == key_of(server, target) ==> s == server && c
                    == target,
                None => true,
            } by {
                assert(fewer[i] == steps[i]);
            }
        }
        lemma_known_of_channel(servers, fewer, server, target);
        assert(steps[steps.len() - 1] == steps.last());
        assert(match channel_in(steps.last()) {
            Some((s, c)) => key_of(s, c) == key_of(server, target) ==> s == server && c == target,
            None => true,
        });
    }
}

/// At the start no members are known.
proof fn lemma_no_members_at_start(servers: Seq<Seq<char>>)
    ensures
        ({
            let opened = WorkspaceView::blank().opened_servers(servers).0;
            opened.nicks == WorkspaceView::blank().nicks && opened.away
                == WorkspaceView::blank().away
        }),
    decreases servers.len(),
{
    if servers.len() > 0 {
        lemma_no_members_at_start(servers.drop_last());
    }
}

/// Whatever is shown and selected in the course of a run, the list of members holds exactly
/// the last members that were shown of what is selected, in their order, and nothing where
/// none were shown. Members that are shown of something else do not change it. This holds
/// wherever what is selected has a key of its own.
pub proof fn law_members_where_keys_differ(servers: Seq<Seq<char>>, steps: Seq<Step>)
    requires
        has_own_key(steps, last_selected(servers, steps).0, last_selected(servers, steps).1),
    ensures
        ({
            let window = WorkspaceView::started(servers).run(steps);
            let (server, target) = last_selected(servers, steps);
            let shown = last_shown(steps, server, target).unwrap_or((Seq::empty(), Seq::empty()));
            &&& window.selected == (server, target)
            &&& window.in_sight() == shown
            &&& listed(servers, steps) == shown
            &&& steps.len() > 0 && channel_in(steps.last()) is Some && channel_in(steps.last())
                != Some((server, target)) ==> shown == listed(servers, steps.drop_last())
        }),
    decreases steps.len(),
{
    let (server, target) = last_selected(servers, steps);
    lemma_known_of_channel(servers, steps, server, target);
    if steps.len() > 0 {
        let fewer = steps.drop_last();
        if !(steps.last() is Selected) {
            assert(has_own_key(fewer, server, target)) by {
                assert forall|i: int| 0 <= i < fewer.len() implies match channel_in(
                    #[trigger] fewer[i],
                ) {
                    Some((s, c)) => key_of(s, c) == key_of(server, target) ==> s == server && c
                        == target,
                    None => true,
                } by {
                    assert(fewer[i] == steps[i]);
                }
            }
            law_members_where_keys_differ(servers, fewer);
        }
    }
}

/// What is selected is on a server whose name does not hold the separator of keys.
proof fn lemma_selected_server(servers: Seq<Seq<char>>, steps: Seq<Step>)
    requires
        forall|i: int| 0 <= i < servers.len() ==> !(#[trigger] servers[i]).contains(KEY_SEP),
    ensures
        !last_selected(servers, steps).0.contains(KEY_SEP),
    decreases steps.len(),
{
    if steps.len() == 0 {
        if servers.len() > 0 {
            assert(!servers[0].contains(KEY_SEP));
        }
    } else {
        match steps.last() {
            Step::Selected { key } => {
                lemma_first_at(key, KEY_SEP);
                let head = before(key, KEY_SEP);
                if head.contains(KEY_SEP) {
                    let i = choose|i: int| 0 <= i < head.len() && head[i] == KEY_SEP;
                    assert(key[i] == KEY_SEP);
                }
            },
            _ => {
                lemma_selected_server(servers, steps.drop_last());
            },
        }
    }
}

/// The same of servers whose names do not hold the separator of keys, as no name of a server
/// does: the list of members holds exactly the last members that were shown of what is
/// selected, and nothing where none were shown.
pub proof fn law_members_over_a_run(servers: Seq<Seq<char>>, steps: Seq<Step>)
    requires
        forall|i: int| 0 <= i < servers.len() ==> !(#[trigger] servers[i]).contains(KEY_SEP),
        forall|i: int|
            0 <= i < steps.len() ==> match channel_in(#[trigger] steps[i]) {
                Some((server, _)) => !server.contains(KEY_SEP),
                None => true,
            },
    ensures
        ({
            let (server, target) = last_selected(servers, steps);
            listed(servers, steps) == last_shown(steps, server, target).unwrap_or(
                (Seq::empty(), Seq::empty()),
            )
        }),
{
    let (server, target) = last_selected(servers, steps);
    lemma_selected_server(servers, steps);
    assert forall|i: int| 0 <= i < steps.len() implies match channel_in(#[trigger] steps[i]) {
        Some((s, c)) => key_of(s, c) == key_of(server, target) ==> s == server && c == target,
        None => true,
    } by {
        if let Some((s, c)) = channel_in(steps[i]) {
            if key_of(s, c) == key_of(server, target) {
                law_keys_differ(s, c, server, target);
            }
        }
    }
    law_members_where_keys_differ(servers, steps);
}

/// A window starts with nothing but the servers, of which the first one is selected, and all of
/// which there are connections to.
pub proof fn law_a_window_starts_at_the_first_server(servers: Seq<Seq<char>>, key: Seq<char>)
    ensures
        ({
            let start = WorkspaceView::started(servers);
            &&& start.connections == servers
            &&& servers.len() > 0 ==> start.selected == (servers[0], "(server)"@)
            &&& servers.len() == 0 ==> start.selected == (Seq::<char>::empty(), Seq::<char>::empty())
            &&& start.nicks.get(key) == Seq::<Seq<char>>::empty()
            &&& start.away.get(key) == Seq::<Seq<char>>::empty()
        }),
{
    lemma_no_members_at_start(servers);
}

/// At the start a row is put in for each server, in order, with its mark and its name.
pub proof fn law_every_server_is_put_in(servers: Seq<Seq<char>>, i: int)
    requires
        servers.no_duplicates(),
        0 <= i < servers.len(),
    ensures
        ({
            let rows = WorkspaceView::blank().opened_servers(servers).1;
            &&& rows.len() == servers.len()
            &&& rows[i].key == servers[i] + seq!['\u{2}'] + "(server)"@
            &&& rows[i].label == "\u{25be} "@ + servers[i]
            &&& rows[i].position == i
        }),
    decreases servers.len(),
{
    let blank = WorkspaceView::blank();
    let fewer = servers.drop_last();
    let last = servers.last();
    assert(fewer.no_duplicates());
    let (was, rows) = blank.opened_servers(fewer);
    lemma_rows_at_start(servers);
    lemma_rows_at_start(fewer);
    if fewer.len() > 0 {
        law_every_server_is_put_in(fewer, if i < fewer.len() {
            i
        } else {
            0
        });
    }
}

/// At the start there is one row for each server.
proof fn lemma_rows_at_start(servers: Seq<Seq<char>>)
    requires
        servers.no_duplicates(),
    ensures
        WorkspaceView::blank().opened_servers(servers).0.rows.len() == servers.len(),
        WorkspaceView::blank().opened_servers(servers).1.len() == servers.len(),
        servers.len() > 0 ==> {
            let was = WorkspaceView::blank().opened_servers(servers.drop_last()).0;
            &&& !was.rows.contains(key_of(servers.last(), SERVER_TARGET@))
            &&& was.position(servers.last()) == servers.len() - 1
        },
    decreases servers.len(),
{
    if servers.len() > 0 {
        let fewer = servers.drop_last();
        let last = servers.last();
        let key = key_of(last, SERVER_TARGET@);
        assert(fewer.no_duplicates());
        lemma_rows_at_start(fewer);
        let was = WorkspaceView::blank().opened_servers(fewer).0;
        assert(!fewer.contains(last)) by {
            if fewer.contains(last) {
                let i = choose|i: int| 0 <= i < fewer.len() && fewer[i] == last;
                assert(servers[i] == servers[servers.len() - 1]);
            }
        }
        law_every_server_has_its_row(fewer, last);
        lemma_only_own_rows(fewer, key);
        if was.rows.contains(key) {
            let other = choose|other: Seq<char>| #[trigger]
                fewer.contains(other) && key_of(other, SERVER_TARGET@) == key;
            lemma_own_keys_differ(other, last);
        }
    }
}

/// A row bears the name of its server behind a mark, or its target, set in.
pub proof fn law_rows_bear_their_names(
    workspace: WorkspaceView,
    server: Seq<char>,
    target: Seq<char>,
)
    ensures
        workspace.opened(server, target).1 matches Some(row) ==> {
            &&& row.key == server + seq!['\u{2}'] + target
            &&& target == "(server)"@ ==> row.label == "\u{25be} "@ + server
            &&& target != "(server)"@ ==> row.label == "    "@ + target
        },
        workspace.opened(server, target).1 is None <==> workspace.rows.contains(
            server + seq!['\u{2}'] + target,
        ),
{
}

/// A line goes, with its time, to the end of the buffer of its target, and is scrolled to if and
/// only if that is what is selected. Beyond the rows it changes nothing.
pub proof fn law_lines_go_to_their_buffer(
    workspace: WorkspaceView,
    server: Seq<char>,
    target: Seq<char>,
    text: Seq<char>,
    stamp: Seq<char>,
)
    ensures
        ({
            let (next, update) = workspace.after(
                IrcEventView::Line { server, target, text },
                stamp,
            );
            &&& update == (UpdateView::Append {
                row: workspace.opened(server, target).1,
                key: server + seq!['\u{2}'] + target,
                text: "["@ + stamp + "] "@ + text + "\n"@,
                scroll: workspace.selected.0 == server && workspace.selected.1 == target,
            })
            &&& next.selected == workspace.selected
            &&& next.connections == workspace.connections
            &&& next.nicks == workspace.nicks
            &&& next.away == workspace.away
        }),
{
}

/// Members that are shown are known from then on, and are listed anew if and only if they are
/// those of what is selected. They change nothing else.
pub proof fn law_members_are_known(
    workspace: WorkspaceView,
    server: Seq<char>,
    channel: Seq<char>,
    nicks: Seq<Seq<char>>,
    away: Seq<Seq<char>>,
    stamp: Seq<char>,
)
    ensures
        ({
            let key = server + seq!['\u{2}'] + channel;
            let (next, update) = workspace.after(
                IrcEventView::Names { server, channel, nicks, away },
                stamp,
            );
            &&& update == (UpdateView::Members {
                refresh: workspace.selected.0 == server && workspace.selected.1 == channel,
            })
            &&& next.nicks.get(key) == nicks
            &&& next.away.get(key) == away
            &&& next.rows == workspace.rows
            &&& next.servers == workspace.servers
            &&& next.selected == workspace.selected
            &&& next.connections == workspace.connections
        }),
{
}

/// Selecting a row selects the server and the target that its key was made of, and changes
/// nothing else.
pub proof fn law_rows_select_their_target(
    workspace: WorkspaceView,
    server: Seq<char>,
    target: Seq<char>,
)
    requires
        !server.contains('\u{2}'),
    ensures
        workspace.with_selected(server + seq!['\u{2}'] + target) == (WorkspaceView {
            selected: (server, target),
            ..workspace
        }),
{
    lemma_split_joined(server, '\u{2}', target);
}

} // verus!
