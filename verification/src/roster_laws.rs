//! What holds of tables of lists, whatever they hold.

use crate::roster::{removed, renamed, RosterView};
use vstd::prelude::*;

verus! {

/// What is filed under a name is found there, and nothing else changes. A new name comes behind
/// all others, a known one keeps its place.
pub proof fn law_what_is_filed_is_found(
    roster: RosterView,
    name: Seq<char>,
    list: Seq<Seq<char>>,
    other: Seq<char>,
)
    requires
        roster.wf(),
    ensures
        roster.set(name, list).get(name) == list,
        other != name ==> roster.set(name, list).get(other) == roster.get(other),
        roster.order.contains(name) ==> roster.set(name, list).order == roster.order,
        !roster.order.contains(name) ==> roster.set(name, list).order == roster.order.push(name),
        RosterView::none().get(name) == Seq::<Seq<char>>::empty(),
        RosterView::none().order == Seq::<Seq<char>>::empty(),
{
    assert(roster.order.contains(name) <==> roster.lists.contains_key(name));
}

/// What is taken out is not found any more, and nothing else changes.
pub proof fn law_what_is_taken_is_gone(roster: RosterView, name: Seq<char>, other: Seq<char>)
    ensures
        roster.without(name).get(name) == Seq::<Seq<char>>::empty(),
        other != name ==> roster.without(name).get(other) == roster.get(other),
{
}

/// Removing a text from a list takes out its occurrences, and leaves the others in their order.
pub proof fn law_removing_keeps_the_order(list: Seq<Seq<char>>, x: Seq<char>, text: Seq<char>)
    ensures
        removed(Seq::empty(), text) == Seq::<Seq<char>>::empty(),
        x == text ==> removed(list.push(x), text) == removed(list, text),
        x != text ==> removed(list.push(x), text) == removed(list, text).push(x),
{
    reveal(Seq::filter);
    assert(list.push(x).drop_last() =~= list);
}

/// Renaming a text in a list changes its occurrences alone, each in its place.
pub proof fn law_renaming_keeps_the_places(
    list: Seq<Seq<char>>,
    old_text: Seq<char>,
    new_text: Seq<char>,
    i: int,
)
    requires
        0 <= i < list.len(),
    ensures
        renamed(list, old_text, new_text).len() == list.len(),
        list[i] == old_text ==> renamed(list, old_text, new_text)[i] == new_text,
        list[i] != old_text ==> renamed(list, old_text, new_text)[i] == list[i],
{
}

/// The names whose lists hold a text are found in their order: whether one is found depends on
/// its own list alone.
pub proof fn law_holders_are_found_in_order(roster: RosterView, last: Seq<char>, text: Seq<char>)
    requires
        roster.order.len() > 0,
        roster.order.last() == last,
    ensures
        ({
            let fewer = RosterView { order: roster.order.drop_last(), lists: roster.lists };
            &&& roster.get(last).contains(text) ==> roster.holding(text) == fewer.holding(
                text,
            ).push(last)
            &&& !roster.get(last).contains(text) ==> roster.holding(text) == fewer.holding(text)
        }),
{
    reveal(Seq::filter);
    let fewer = RosterView { order: roster.order.drop_last(), lists: roster.lists };
    assert((|name: Seq<char>| roster.get(name).contains(text)) =~= (|name: Seq<char>|
        fewer.get(name).contains(text)));
}

/// A change that is made in every list is made in each, and no name comes or goes.
pub proof fn law_every_list_is_changed(
    roster: RosterView,
    change: spec_fn(Seq<Seq<char>>) -> Seq<Seq<char>>,
    name: Seq<char>,
)
    ensures
        roster.mapped(change).order == roster.order,
        roster.lists.contains_key(name) <==> roster.mapped(change).lists.contains_key(name),
        roster.lists.contains_key(name) ==> roster.mapped(change).get(name) == change(
            roster.get(name),
        ),
{
}

} // verus!
