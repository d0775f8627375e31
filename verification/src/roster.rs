//! Lists of texts filed under names, which keep the order in which the names came.

use crate::text::{copied, holds, lemma_texts_push, same, texts};
use vstd::prelude::*;

verus! {

/// What a [`Roster`] holds: the names in the order in which they came, and the list filed
/// under each of them.
#[verifier::ext_equal]
pub struct RosterView {
    pub order: Seq<Seq<char>>,
    pub lists: Map<Seq<char>, Seq<Seq<char>>>,
}

impl RosterView {
    /// Nothing is filed.
    pub open spec fn none() -> RosterView {
        RosterView { order: Seq::empty(), lists: Map::empty() }
    }

    /// The list under `name`: empty where there is none.
    pub open spec fn get(self, name: Seq<char>) -> Seq<Seq<char>> {
        if self.lists.contains_key(name) {
            self.lists[name]
        } else {
            Seq::empty()
        }
    }

    /// `list` filed under `name`, in the place of what was there.
    pub open spec fn set(self, name: Seq<char>, list: Seq<Seq<char>>) -> RosterView {
        RosterView {
            order: if self.lists.contains_key(name) {
                self.order
            } else {
                self.order.push(name)
            },
            lists: self.lists.insert(name, list),
        }
    }

    /// Nothing filed under `name`.
    pub open spec fn without(self, name: Seq<char>) -> RosterView {
        if self.lists.contains_key(name) {
            RosterView {
                order: self.order.remove(self.order.index_of(name)),
                lists: self.lists.remove(name),
            }
        } else {
            self
        }
    }

    /// `change` made in every list.
    pub open spec fn mapped(
        self,
        change: spec_fn(Seq<Seq<char>>) -> Seq<Seq<char>>,
    ) -> RosterView {
        RosterView { order: self.order, lists: self.lists.map_values(change) }
    }

    /// The names whose lists hold `text`, in order.
    pub open spec fn holding(self, text: Seq<char>) -> Seq<Seq<char>> {
        self.order.filter(|name: Seq<char>| self.get(name).contains(text))
    }

    /// No name comes twice, and the names in order are those under which a list is filed.
    pub open spec fn wf(self) -> bool {
        &&& self.order.no_duplicates()
        &&& forall|name: Seq<char>| #[trigger]
            self.order.contains(name) <==> self.lists.contains_key(name)
    }
}

/// Whether a text is another one than `text`.
pub open spec fn other_than(text: Seq<char>) -> spec_fn(Seq<char>) -> bool {
    |t: Seq<char>| t != text
}

/// `list` without `text`, wherever it occurs.
pub open spec fn removed(list: Seq<Seq<char>>, text: Seq<char>) -> Seq<Seq<char>> {
    list.filter(other_than(text))
}

/// `list` with `new_text` wherever it had `old_text`.
pub open spec fn renamed(list: Seq<Seq<char>>, old_text: Seq<char>, new_text: Seq<char>) -> Seq<
    Seq<char>,
> {
    list.map_values(
        |t: Seq<char>|
            if t == old_text {
                new_text
            } else {
                t
            },
    )
}

/// Filing a list keeps a roster well-formed.
pub proof fn lemma_set_wf(roster: RosterView, name: Seq<char>, list: Seq<Seq<char>>)
    requires
        roster.wf(),
    ensures
        roster.set(name, list).wf(),
{
    let next = roster.set(name, list);
    assert forall|n: Seq<char>| #[trigger]
        next.order.contains(n) <==> next.lists.contains_key(n) by {
        assert(roster.order.contains(n) <==> roster.lists.contains_key(n));
        if !roster.lists.contains_key(name) {
            if roster.order.contains(n) {
                let i = choose|i: int| 0 <= i < roster.order.len() && roster.order[i] == n;
                assert(next.order[i] == n);
            }
            if n == name {
                assert(next.order[roster.order.len() as int] == n);
            }
            if next.order.contains(n) && n != name {
                let i = choose|i: int| 0 <= i < next.order.len() && next.order[i] == n;
                assert(roster.order[i] == n);
            }
        }
    }
    assert(next.order.no_duplicates()) by {
        if !roster.lists.contains_key(name) {
            assert(!roster.order.contains(name));
            assert forall|i: int, j: int|
                0 <= i < next.order.len() && 0 <= j < next.order.len() && i
                    != j implies next.order[i] != next.order[j] by {
                if i == roster.order.len() {
                    assert(roster.order.contains(roster.order[j]));
                } else if j == roster.order.len() {
                    assert(roster.order.contains(roster.order[i]));
                }
            }
        }
    }
}

/// The texts that the lists of `v` hold.
spec fn lists_of(v: Seq<Vec<String>>) -> Seq<Seq<Seq<char>>> {
    Seq::new(v.len(), |i: int| texts(v[i]@))
}

/// Each list filed under the name in the same place.
spec fn filed(order: Seq<Seq<char>>, lists: Seq<Seq<Seq<char>>>) -> RosterView {
    RosterView {
        order,
        lists: Map::new(
            |name: Seq<char>| order.contains(name),
            |name: Seq<char>| lists[order.index_of(name)],
        ),
    }
}

proof fn lemma_filed_at(order: Seq<Seq<char>>, lists: Seq<Seq<Seq<char>>>, i: int)
    requires
        order.no_duplicates(),
        order.len() == lists.len(),
        0 <= i < order.len(),
    ensures
        order.index_of(order[i]) == i,
        filed(order, lists).lists.contains_key(order[i]),
        filed(order, lists).lists[order[i]] == lists[i],
{
    assert(order.contains(order[i]));
    let k = order.index_of(order[i]);
    assert(0 <= k < order.len() && order[k] == order[i]);
}

proof fn lemma_filed_update(
    order: Seq<Seq<char>>,
    lists: Seq<Seq<Seq<char>>>,
    i: int,
    list: Seq<Seq<char>>,
)
    requires
        order.no_duplicates(),
        order.len() == lists.len(),
        0 <= i < order.len(),
    ensures
        filed(order, lists.update(i, list)) == filed(order, lists).set(order[i], list),
{
    let a = filed(order, lists.update(i, list));
    let b = filed(order, lists).set(order[i], list);
    lemma_filed_at(order, lists, i);
    assert forall|name: Seq<char>| #[trigger] a.lists.contains_key(name) implies a.lists[name]
        == b.lists[name] by {
        let k = order.index_of(name);
        assert(0 <= k < order.len() && order[k] == name);
        lemma_filed_at(order, lists, k);
        lemma_filed_at(order, lists.update(i, list), k);
    }
    assert(a.lists =~= b.lists);
}

proof fn lemma_filed_push(
    order: Seq<Seq<char>>,
    lists: Seq<Seq<Seq<char>>>,
    name: Seq<char>,
    list: Seq<Seq<char>>,
)
    requires
        order.no_duplicates(),
        order.len() == lists.len(),
        !order.contains(name),
    ensures
        order.push(name).no_duplicates(),
        filed(order.push(name), lists.push(list)) == filed(order, lists).set(name, list),
{
    let o = order.push(name);
    let l = lists.push(list);
    assert(o.no_duplicates()) by {
        assert forall|i: int, j: int|
            0 <= i < o.len() && 0 <= j < o.len() && i != j implies o[i] != o[j] by {
            if i == order.len() {
                assert(order.contains(order[j]));
            } else if j == order.len() {
                assert(order.contains(order[i]));
            }
        }
    }
    let a = filed(o, l);
    let b = filed(order, lists).set(name, list);
    assert forall|n: Seq<char>| #[trigger]
        a.lists.contains_key(n) <==> b.lists.contains_key(n) by {
        if o.contains(n) {
            let k = o.index_of(n);
            assert(0 <= k < o.len() && o[k] == n);
            if k < order.len() {
                assert(order[k] == n);
            }
        }
        if order.contains(n) {
            let k = order.index_of(n);
            assert(0 <= k < order.len() && order[k] == n);
            assert(o[k] == n);
        }
        if n == name {
            assert(o[order.len() as int] == n);
        }
    }
    assert forall|n: Seq<char>| #[trigger] a.lists.contains_key(n) implies a.lists[n]
        == b.lists[n] by {
        let k = o.index_of(n);
        assert(0 <= k < o.len() && o[k] == n);
        lemma_filed_at(o, l, k);
        if k < order.len() {
            lemma_filed_at(order, lists, k);
            assert(order.contains(n));
        }
    }
    assert(a.lists =~= b.lists);
}

proof fn lemma_filed_remove(order: Seq<Seq<char>>, lists: Seq<Seq<Seq<char>>>, i: int)
    requires
        order.no_duplicates(),
        order.len() == lists.len(),
        0 <= i < order.len(),
    ensures
        order.remove(i).no_duplicates(),
        filed(order.remove(i), lists.remove(i)) == filed(order, lists).without(order[i]),
{
    let o = order.remove(i);
    let l = lists.remove(i);
    let name = order[i];
    lemma_filed_at(order, lists, i);
    let a = filed(o, l);
    let b = filed(order, lists).without(name);
    assert forall|n: Seq<char>| #[trigger]
        a.lists.contains_key(n) <==> b.lists.contains_key(n) by {
        if o.contains(n) {
            let k = o.index_of(n);
            assert(0 <= k < o.len() && o[k] == n);
            let m = if k < i {
                k
            } else {
                k + 1
            };
            assert(order[m] == n);
            assert(order.contains(n));
        }
        if order.contains(n) && n != name {
            let k = order.index_of(n);
            assert(0 <= k < order.len() && order[k] == n);
            let m = if k < i {
                k
            } else {
                k - 1
            };
            assert(o[m] == n);
        }
    }
    assert forall|n: Seq<char>| #[trigger] a.lists.contains_key(n) implies a.lists[n]
        == b.lists[n] by {
        let k = o.index_of(n);
        assert(0 <= k < o.len() && o[k] == n);
        lemma_filed_at(o, l, k);
        let m = if k < i {
            k
        } else {
            k + 1
        };
        assert(order[m] == n);
        lemma_filed_at(order, lists, m);
    }
    assert(a.lists =~= b.lists);
    assert(a.order =~= b.order);
}

proof fn lemma_filed_mapped(
    order: Seq<Seq<char>>,
    before: Seq<Seq<Seq<char>>>,
    after: Seq<Seq<Seq<char>>>,
    change: spec_fn(Seq<Seq<char>>) -> Seq<Seq<char>>,
)
    requires
        order.no_duplicates(),
        order.len() == before.len() == after.len(),
        forall|i: int| 0 <= i < before.len() ==> #[trigger] after[i] == change(before[i]),
    ensures
        filed(order, after) == filed(order, before).mapped(change),
{
    let a = filed(order, after);
    let b = filed(order, before).mapped(change);
    assert forall|n: Seq<char>| #[trigger] a.lists.contains_key(n) implies a.lists[n]
        == b.lists[n] by {
        let k = order.index_of(n);
        assert(0 <= k < order.len() && order[k] == n);
        lemma_filed_at(order, before, k);
        lemma_filed_at(order, after, k);
    }
    assert(a.lists =~= b.lists);
}

/// `list` without `text`, wherever it occurs.
pub fn drop_text(list: &Vec<String>, text: &str) -> (rest: Vec<String>)
    ensures
        texts(rest@) == removed(texts(list@), text@),
{
    let mut rest: Vec<String> = Vec::new();
    let ghost keep = other_than(text@);
    let mut i: usize = 0;
    proof {
        reveal(Seq::filter);
        assert(texts(rest@) =~= texts(list@).take(0).filter(keep));
    }
    while i < list.len()
        invariant
            i <= list.len(),
            keep == other_than(text@),
            texts(rest@) == texts(list@).take(i as int).filter(keep),
        decreases list.len() - i,
    {
        proof {
            reveal(Seq::filter);
            let next = texts(list@).take(i + 1);
            assert(next.drop_last() =~= texts(list@).take(i as int));
            assert(next.last() == list@[i as int]@);
            lemma_texts_push(rest@, list@[i as int]);
        }
        if !same(list[i].as_str(), text) {
            rest.push(list[i].clone());
        }
        i += 1;
    }
    assert(texts(list@).take(i as int) =~= texts(list@));
    rest
}

/// Those texts of `list` that `others` holds, or where not `inside`, those that it does not
/// hold.
pub fn select(list: &Vec<String>, others: &Vec<String>, inside: bool) -> (rest: Vec<String>)
    ensures
        texts(rest@) == texts(list@).filter(
            |t: Seq<char>| texts(others@).contains(t) == inside,
        ),
{
    let mut rest: Vec<String> = Vec::new();
    let ghost keep = |t: Seq<char>| texts(others@).contains(t) == inside;
    let mut i: usize = 0;
    proof {
        reveal(Seq::filter);
        assert(texts(rest@) =~= texts(list@).take(0).filter(keep));
    }
    while i < list.len()
        invariant
            i <= list.len(),
            keep == (|t: Seq<char>| texts(others@).contains(t) == inside),
            texts(rest@) == texts(list@).take(i as int).filter(keep),
        decreases list.len() - i,
    {
        proof {
            reveal(Seq::filter);
            let next = texts(list@).take(i + 1);
            assert(next.drop_last() =~= texts(list@).take(i as int));
            assert(next.last() == list@[i as int]@);
            lemma_texts_push(rest@, list@[i as int]);
        }
        if holds(others, list[i].as_str()) == inside {
            rest.push(list[i].clone());
        }
        i += 1;
    }
    assert(texts(list@).take(i as int) =~= texts(list@));
    rest
}

/// Takes the first `text` out of `list`, and says whether there was one.
pub fn take_first(list: &mut Vec<String>, text: &str) -> (found: bool)
    ensures
        found == texts(old(list)@).contains(text@),
        texts(final(list)@) == texts(old(list)@).remove_value(text@),
        !found ==> texts(final(list)@) == texts(old(list)@),
{
    let ghost start = texts(list@);
    proof {
        start.index_of_first_ensures(text@);
    }
    let mut i: usize = 0;
    while i < list.len()
        invariant
            i <= list.len(),
            *list == *old(list),
            start == texts(list@),
            forall|j: int| 0 <= j < i ==> start[j] != text@,
        decreases list.len() - i,
    {
        if same(list[i].as_str(), text) {
            proof {
                assert(start[i as int] == text@);
                assert(start.contains(text@));
                start.index_of_first_ensures(text@);
            }
            let _text = list.remove(i);
            assert(texts(list@) =~= start.remove(i as int));
            return true;
        }
        i += 1;
    }
    false
}

/// `list` with `new_text` wherever it had `old_text`.
pub fn rename_text(list: &Vec<String>, old_text: &str, new_text: &str) -> (out: Vec<String>)
    ensures
        texts(out@) == renamed(texts(list@), old_text@, new_text@),
{
    let mut out: Vec<String> = Vec::new();
    let mut i: usize = 0;
    while i < list.len()
        invariant
            i <= list.len(),
            texts(out@) == renamed(texts(list@), old_text@, new_text@).take(i as int),
        decreases list.len() - i,
    {
        let text = if same(list[i].as_str(), old_text) {
            new_text.to_owned()
        } else {
            list[i].clone()
        };
        proof {
            lemma_texts_push(out@, text);
            let all = renamed(texts(list@), old_text@, new_text@);
            assert(all.take(i + 1) =~= all.take(i as int).push(text@));
        }
        out.push(text);
        i += 1;
    }
    proof {
        let all = renamed(texts(list@), old_text@, new_text@);
        assert(all.take(i as int) =~= all);
    }
    out
}

/// Lists of texts, each filed under a name.
pub struct Roster {
    names: Vec<String>,
    lists: Vec<Vec<String>>,
}

impl View for Roster {
    type V = RosterView;

    closed spec fn view(&self) -> RosterView {
        filed(texts(self.names@), lists_of(self.lists@))
    }
}

impl Roster {
    /// No name has two lists.
    pub closed spec fn wf(&self) -> bool {
        &&& self.names.len() == self.lists.len()
        &&& texts(self.names@).no_duplicates()
    }

    /// A well-formed roster has a well-formed view.
    pub proof fn lemma_wf(&self)
        requires
            self.wf(),
        ensures
            self@.wf(),
    {
    }

    /// A roster in which nothing is filed.
    pub fn new() -> (roster: Roster)
        ensures
            roster.wf(),
            roster@ == RosterView::none(),
    {
        let roster = Roster { names: Vec::new(), lists: Vec::new() };
        assert(roster@.order =~= Seq::empty());
        assert(roster@.lists =~= Map::empty());
        roster
    }

    /// The place of `name` among the names.
    fn place(&self, name: &str) -> (place: Option<usize>)
        requires
            self.wf(),
        ensures
            match place {
                Some(i) => i < self.names.len() && self.names@[i as int]@ == name@
                    && self@.lists.contains_key(name@) && self@.lists[name@] == texts(
                    self.lists@[i as int]@,
                ),
                None => !self@.lists.contains_key(name@) && !texts(self.names@).contains(name@),
            },
    {
        let mut i: usize = 0;
        while i < self.names.len()
            invariant
                self.wf(),
                i <= self.names.len(),
                forall|j: int| 0 <= j < i ==> self.names@[j]@ != name@,
            decreases self.names.len() - i,
        {
            if same(self.names[i].as_str(), name) {
                proof {
                    lemma_filed_at(texts(self.names@), lists_of(self.lists@), i as int);
                    assert(texts(self.names@)[i as int] == name@);
                }
                return Some(i);
            }
            i += 1;
        }
        assert(!texts(self.names@).contains(name@));
        None
    }

    /// The names, in order.
    pub fn names(&self) -> (names: Vec<String>)
        ensures
            texts(names@) == self@.order,
    {
        copied(&self.names)
    }

    /// Whether something is filed under `name`.
    pub fn has(&self, name: &str) -> (found: bool)
        requires
            self.wf(),
        ensures
            found == self@.lists.contains_key(name@),
    {
        match self.place(name) {
            Some(_) => true,
            None => false,
        }
    }

    /// The list under `name`: empty where there is none.
    pub fn get(&self, name: &str) -> (list: Vec<String>)
        requires
            self.wf(),
        ensures
            texts(list@) == self@.get(name@),
    {
        match self.place(name) {
            Some(i) => copied(&self.lists[i]),
            None => {
                let list: Vec<String> = Vec::new();
                assert(texts(list@) =~= Seq::empty());
                list
            },
        }
    }

    /// Files `list` under `name`, in the place of what was there.
    pub fn set(&mut self, name: &str, list: Vec<String>)
        requires
            old(self).wf(),
        ensures
            final(self).wf(),
            final(self)@ == old(self)@.set(name@, texts(list@)),
    {
        let ghost order = texts(self.names@);
        let ghost lists = lists_of(self.lists@);
        match self.place(name) {
            Some(i) => {
                proof {
                    lemma_filed_update(order, lists, i as int, texts(list@));
                }
                let ghost changed = texts(list@);
                self.lists.set(i, list);
                assert(lists_of(self.lists@) =~= lists.update(i as int, changed));
            },
            None => {
                proof {
                    lemma_filed_push(order, lists, name@, texts(list@));
                }
                let text = name.to_owned();
                proof {
                    lemma_texts_push(self.names@, text);
                }
                let ghost added = texts(list@);
                self.names.push(text);
                self.lists.push(list);
                assert(lists_of(self.lists@) =~= lists.push(added));
            },
        }
    }

    /// Puts `text` behind the list under `name`.
    pub fn add(&mut self, name: &str, text: &str)
        requires
            old(self).wf(),
        ensures
            final(self).wf(),
            final(self)@ == old(self)@.set(name@, old(self)@.get(name@).push(text@)),
    {
        let mut list = self.get(name);
        let item = text.to_owned();
        proof {
            lemma_texts_push(list@, item);
        }
        list.push(item);
        self.set(name, list);
    }

    /// Takes out what is filed under `name`: nothing where there is none.
    pub fn take(&mut self, name: &str) -> (list: Vec<String>)
        requires
            old(self).wf(),
        ensures
            final(self).wf(),
            texts(list@) == old(self)@.get(name@),
            final(self)@ == old(self)@.without(name@),
    {
        let ghost order = texts(self.names@);
        let ghost lists = lists_of(self.lists@);
        match self.place(name) {
            Some(i) => {
                proof {
                    lemma_filed_remove(order, lists, i as int);
                }
                let _name = self.names.remove(i);
                let list = self.lists.remove(i);
                assert(texts(self.names@) =~= order.remove(i as int));
                assert(lists_of(self.lists@) =~= lists.remove(i as int));
                list
            },
            None => {
                let list: Vec<String> = Vec::new();
                assert(texts(list@) =~= Seq::empty());
                list
            },
        }
    }

    /// The names whose lists hold `text`, in order.
    pub fn holding(&self, text: &str) -> (names: Vec<String>)
        requires
            self.wf(),
        ensures
            texts(names@) == self@.holding(text@),
    {
        let mut names: Vec<String> = Vec::new();
        let ghost order = texts(self.names@);
        let ghost keep = |name: Seq<char>| self@.get(name).contains(text@);
        let mut i: usize = 0;
        proof {
            reveal(Seq::filter);
            assert(texts(names@) =~= order.take(0).filter(keep));
        }
        while i < self.names.len()
            invariant
                self.wf(),
                i <= self.names.len(),
                order == texts(self.names@),
                keep == (|name: Seq<char>| self@.get(name).contains(text@)),
                texts(names@) == order.take(i as int).filter(keep),
            decreases self.names.len() - i,
        {
            proof {
                reveal(Seq::filter);
                let next = order.take(i + 1);
                assert(next.drop_last() =~= order.take(i as int));
                assert(next.last() == self.names@[i as int]@);
                lemma_texts_push(names@, self.names@[i as int]);
                lemma_filed_at(order, lists_of(self.lists@), i as int);
            }
            if holds(&self.lists[i], text) {
                names.push(self.names[i].clone());
            }
            i += 1;
        }
        assert(order.take(i as int) =~= order);
        names
    }

    /// Takes `text` out of every list.
    pub fn drop_everywhere(&mut self, text: &str)
        requires
            old(self).wf(),
        ensures
            final(self).wf(),
            final(self)@ == old(self)@.mapped(|list: Seq<Seq<char>>| removed(list, text@)),
    {
        let mut lists: Vec<Vec<String>> = Vec::new();
        let mut i: usize = 0;
        while i < self.lists.len()
            invariant
                i <= self.lists.len(),
                lists.len() == i,
                forall|j: int|
                    0 <= j < i ==> texts(#[trigger] lists@[j]@) == removed(
                        texts(self.lists@[j]@),
                        text@,
                    ),
            decreases self.lists.len() - i,
        {
            lists.push(drop_text(&self.lists[i], text));
            i += 1;
        }
        proof {
            lemma_filed_mapped(
                texts(self.names@),
                lists_of(self.lists@),
                lists_of(lists@),
                |list: Seq<Seq<char>>| removed(list, text@),
            );
        }
        self.lists = lists;
    }

    /// Puts `new_text` in the place of `old_text` in every list.
    pub fn rename_everywhere(&mut self, old_text: &str, new_text: &str)
        requires
            old(self).wf(),
        ensures
            final(self).wf(),
            final(self)@ == old(self)@.mapped(
                |list: Seq<Seq<char>>| renamed(list, old_text@, new_text@),
            ),
    {
        let mut lists: Vec<Vec<String>> = Vec::new();
        let mut i: usize = 0;
        while i < self.lists.len()
            invariant
                i <= self.lists.len(),
                lists.len() == i,
                forall|j: int|
                    0 <= j < i ==> texts(#[trigger] lists@[j]@) == renamed(
                        texts(self.lists@[j]@),
                        old_text@,
                        new_text@,
                    ),
            decreases self.lists.len() - i,
        {
            lists.push(rename_text(&self.lists[i], old_text, new_text));
            i += 1;
        }
        proof {
            lemma_filed_mapped(
                texts(self.names@),
                lists_of(self.lists@),
                lists_of(lists@),
                |list: Seq<Seq<char>>| renamed(list, old_text@, new_text@),
            );
        }
        self.lists = lists;
    }
}

} // verus!
