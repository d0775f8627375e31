//! What holds of the functions on text, whatever the text is.

use crate::text::{
    after, before, drop_leading, drop_trailing, is_white, join, lemma_drop_leading,
    lemma_drop_trailing, lemma_first_at, lemma_split_joined, lemma_word_len, less_than, replaced,
    trim, trim_end, white_set, word_len, words_of,
};
use vstd::prelude::*;

verus! {

/// Every character of `s` is white space.
pub open spec fn is_blank(s: Seq<char>) -> bool {
    forall|i: int| 0 <= i < s.len() ==> is_white(#[trigger] s[i])
}

/// `s` holds no white space.
pub open spec fn is_unbroken(s: Seq<char>) -> bool {
    forall|i: int| 0 <= i < s.len() ==> !is_white(#[trigger] s[i])
}

/// Text is split at the first separator: what stands before it comes out, and what stands
/// behind it, whatever that holds.
pub proof fn law_text_is_split_at_the_first(head: Seq<char>, c: char, tail: Seq<char>)
    requires
        !head.contains(c),
    ensures
        before(head + seq![c] + tail, c) == head,
        after(head + seq![c] + tail, c) == tail,
{
    lemma_split_joined(head, c, tail);
}

/// Text without a separator comes out whole, with nothing behind it.
pub proof fn law_unsplit_text_is_whole(s: Seq<char>, c: char)
    requires
        !s.contains(c),
    ensures
        before(s, c) == s,
        after(s, c) == Seq::<char>::empty(),
{
    lemma_first_at(s, c);
    assert(s.take(s.len() as int) =~= s);
}

/// A text that holds nothing but white space has no words.
pub proof fn law_blank_text_has_no_words(s: Seq<char>)
    requires
        is_blank(s),
    ensures
        words_of(s) == Seq::<Seq<char>>::empty(),
    decreases s.len(),
{
    if s.len() > 0 {
        let t = s.skip(1);
        assert(is_white(s[0]));
        assert forall|i: int| 0 <= i < t.len() implies is_white(#[trigger] t[i]) by {
            assert(t[i] == s[i + 1]);
        }
        law_blank_text_has_no_words(t);
    }
}

/// The first word of a text is what stands between the white space before it and the white
/// space behind it, or the end; the other words are those of the rest.
pub proof fn law_words_come_one_by_one(blank: Seq<char>, word: Seq<char>, rest: Seq<char>)
    requires
        is_blank(blank),
        word.len() > 0,
        is_unbroken(word),
        rest.len() == 0 || is_white(rest[0]),
    ensures
        words_of(blank + word + rest) == seq![word] + words_of(rest),
    decreases blank.len(),
{
    let s = blank + word + rest;
    if blank.len() > 0 {
        let fewer = blank.skip(1);
        assert(is_white(blank[0]));
        assert forall|i: int| 0 <= i < fewer.len() implies is_white(#[trigger] fewer[i]) by {
            assert(fewer[i] == blank[i + 1]);
        }
        law_words_come_one_by_one(fewer, word, rest);
        assert(s.skip(1) =~= fewer + word + rest);
    } else {
        assert(s =~= word + rest);
        assert(!is_white(word[0]));
        lemma_word_len(s);
        let n = word_len(s) as int;
        if n < word.len() {
            assert(s[n] == word[n]);
            assert(!is_white(word[n]));
        } else if n > word.len() {
            assert(s[word.len() as int] == rest[0]);
        }
        assert(s.take(n) =~= word);
        assert(s.skip(n) =~= rest);
    }
}

/// White space at the end of a text is taken off, and nothing else is.
pub proof fn law_blank_ends_are_trimmed(core: Seq<char>, tail: Seq<char>)
    requires
        core.len() == 0 || !is_white(core.last()),
        is_blank(tail),
    ensures
        trim_end(core + tail) == core,
{
    let s = core + tail;
    let n = core.len() as int;
    assert forall|j: int| n <= j < s.len() implies white_set().contains(s[j]) by {
        assert(s[j] == tail[j - n]);
    }
    if n > 0 {
        assert(s[n - 1] == core.last());
    }
    lemma_drop_trailing(s, white_set(), n);
    assert(s.take(n) =~= core);
}

/// White space at both ends of a text is taken off, and nothing else is.
pub proof fn law_blank_edges_are_trimmed(lead: Seq<char>, core: Seq<char>, tail: Seq<char>)
    requires
        is_blank(lead),
        is_blank(tail),
        core.len() == 0 || (!is_white(core[0]) && !is_white(core.last())),
    ensures
        trim(lead + core + tail) == core,
{
    if core.len() == 0 {
        let s = lead + core + tail;
        assert forall|i: int| 0 <= i < s.len() implies is_white(#[trigger] s[i]) by {
            if i < lead.len() {
                assert(s[i] == lead[i]);
            } else {
                assert(s[i] == tail[i - lead.len()]);
            }
        }
        law_blank_ends_are_trimmed(Seq::empty(), s);
        assert(Seq::<char>::empty() + s =~= s);
        lemma_drop_leading(Seq::empty(), white_set(), 0);
    } else {
        law_blank_ends_are_trimmed(lead + core, tail);
        law_leading_marks_are_dropped(lead, core, white_set());
    }
}

/// Of a text, the characters of a set that it starts with are dropped, and nothing else.
pub proof fn law_leading_marks_are_dropped(marks: Seq<char>, rest: Seq<char>, set: Set<char>)
    requires
        forall|i: int| 0 <= i < marks.len() ==> set.contains(#[trigger] marks[i]),
        rest.len() == 0 || !set.contains(rest[0]),
    ensures
        drop_leading(marks + rest, set) == rest,
{
    let s = marks + rest;
    let n = marks.len() as int;
    assert forall|j: int| 0 <= j < n implies set.contains(s[j]) by {
        assert(s[j] == marks[j]);
    }
    lemma_drop_leading(s, set, n);
    assert(s.skip(n) =~= rest);
}

/// Of a text, the characters of a set that it ends with are dropped, and nothing else.
pub proof fn law_trailing_marks_are_dropped(rest: Seq<char>, marks: Seq<char>, set: Set<char>)
    requires
        forall|i: int| 0 <= i < marks.len() ==> set.contains(#[trigger] marks[i]),
        rest.len() == 0 || !set.contains(rest.last()),
    ensures
        drop_trailing(rest + marks, set) == rest,
{
    let s = rest + marks;
    let n = rest.len() as int;
    assert forall|j: int| n <= j < s.len() implies set.contains(s[j]) by {
        assert(s[j] == marks[j - n]);
    }
    lemma_drop_trailing(s, set, n);
    assert(s.take(n) =~= rest);
}

/// Joining two lists is joining each of them, with the separator between; one text joined is
/// that text, and none is nothing.
pub proof fn law_joining_is_piecewise(
    a: Seq<Seq<char>>,
    b: Seq<Seq<char>>,
    x: Seq<char>,
    sep: Seq<char>,
)
    requires
        a.len() > 0,
        b.len() > 0,
    ensures
        join(a + b, sep) == join(a, sep) + sep + join(b, sep),
        join(seq![x], sep) == x,
        join(Seq::empty(), sep) == Seq::<char>::empty(),
    decreases b.len(),
{
    let all = a + b;
    assert(all.last() == b.last());
    if b.len() == 1 {
        assert(all.drop_last() =~= a);
    } else {
        assert(all.drop_last() =~= a + b.drop_last());
        law_joining_is_piecewise(a, b.drop_last(), x, sep);
        assert(join(all, sep) =~= join(a, sep) + sep + join(b, sep));
    }
}

/// Replacing a character touches its occurrences alone.
pub proof fn law_replacing_touches_one_character(s: Seq<char>, from: char, to: char, i: int)
    requires
        0 <= i < s.len(),
    ensures
        replaced(s, from, to).len() == s.len(),
        s[i] == from ==> replaced(s, from, to)[i] == to,
        s[i] != from ==> replaced(s, from, to)[i] == s[i],
{
}

/// Of two texts the one comes first that has the smaller character where they first differ, or
/// that ends there. No text comes before itself.
pub proof fn law_first_difference_decides(
    common: Seq<char>,
    a: char,
    b: char,
    x: Seq<char>,
    y: Seq<char>,
)
    requires
        (a as u32) < (b as u32),
    ensures
        less_than(common + seq![a] + x, common + seq![b] + y),
        !less_than(common + seq![b] + y, common + seq![a] + x),
        less_than(common, common + seq![a] + x),
        !less_than(common + seq![a] + x, common),
        !less_than(common, common),
    decreases common.len(),
{
    let s = common + seq![a] + x;
    let t = common + seq![b] + y;
    if common.len() == 0 {
        assert(s[0] == a && t[0] == b);
    } else {
        let c = common.skip(1);
        law_first_difference_decides(c, a, b, x, y);
        assert(s[0] == common[0] && t[0] == common[0]);
        assert(s.skip(1) =~= c + seq![a] + x);
        assert(t.skip(1) =~= c + seq![b] + y);
    }
}

} // verus!
