//! Text as sequences of characters: searching, splitting, trimming, joining and ordering.

use vstd::prelude::*;

verus! {

/// The texts that the strings of `v` hold.
pub open spec fn texts(v: Seq<String>) -> Seq<Seq<char>> {
    Seq::new(v.len(), |i: int| v[i]@)
}

/// Where `c` first stands in `s`, or the length of `s` where it does not.
pub open spec fn first_at(s: Seq<char>, c: char) -> int
    decreases s.len(),
{
    if s.len() == 0 || s[0] == c {
        0
    } else {
        1 + first_at(s.skip(1), c)
    }
}

/// What stands before the first `c`: all of `s` where there is none.
pub open spec fn before(s: Seq<char>, c: char) -> Seq<char> {
    s.take(first_at(s, c))
}

/// What stands behind the first `c`: nothing where there is none.
pub open spec fn after(s: Seq<char>, c: char) -> Seq<char> {
    if s.contains(c) {
        s.skip(first_at(s, c) + 1)
    } else {
        Seq::empty()
    }
}

/// Whether `c` has the Unicode property White_Space.
pub open spec fn is_white(c: char) -> bool {
    let n = c as u32;
    ||| 0x09 <= n <= 0x0d
    ||| n == 0x20
    ||| n == 0x85
    ||| n == 0xa0
    ||| n == 0x1680
    ||| 0x2000 <= n <= 0x200a
    ||| n == 0x2028
    ||| n == 0x2029
    ||| n == 0x202f
    ||| n == 0x205f
    ||| n == 0x3000
}

/// `s` without the characters of `set` that it starts with.
pub open spec fn drop_leading(s: Seq<char>, set: Set<char>) -> Seq<char>
    decreases s.len(),
{
    if s.len() > 0 && set.contains(s[0]) {
        drop_leading(s.skip(1), set)
    } else {
        s
    }
}

/// `s` without the characters of `set` that it ends with.
pub open spec fn drop_trailing(s: Seq<char>, set: Set<char>) -> Seq<char>
    decreases s.len(),
{
    if s.len() > 0 && set.contains(s.last()) {
        drop_trailing(s.drop_last(), set)
    } else {
        s
    }
}

/// The white space characters.
pub open spec fn white_set() -> Set<char> {
    Set::new(|c: char| is_white(c))
}

/// `s` without white space at its end.
pub open spec fn trim_end(s: Seq<char>) -> Seq<char> {
    drop_trailing(s, white_set())
}

/// `s` without white space at either end.
pub open spec fn trim(s: Seq<char>) -> Seq<char> {
    drop_leading(trim_end(s), white_set())
}

/// How many characters of `s` stand before its first white space.
pub open spec fn word_len(s: Seq<char>) -> nat
    decreases s.len(),
{
    if s.len() == 0 || is_white(s[0]) {
        0
    } else {
        1 + word_len(s.skip(1))
    }
}

/// What `word_len` is, without recursion.
pub proof fn lemma_word_len(s: Seq<char>)
    ensures
        word_len(s) <= s.len(),
        forall|j: int| 0 <= j < word_len(s) ==> !is_white(s[j]),
        word_len(s) < s.len() ==> is_white(s[word_len(s) as int]),
    decreases s.len(),
{
    if s.len() > 0 && !is_white(s[0]) {
        let t = s.skip(1);
        lemma_word_len(t);
        assert forall|j: int| 0 <= j < word_len(s) implies !is_white(s[j]) by {
            if j > 0 {
                assert(s[j] == t[j - 1]);
            }
        }
    }
}

/// The words of `s`: its longest runs without white space, in order.
pub open spec fn words_of(s: Seq<char>) -> Seq<Seq<char>>
    decreases s.len(),
{
    if s.len() == 0 {
        Seq::empty()
    } else if is_white(s[0]) {
        words_of(s.skip(1))
    } else {
        proof {
            lemma_word_len(s);
        }
        seq![s.take(word_len(s) as int)] + words_of(s.skip(word_len(s) as int))
    }
}

/// The texts of `list` one behind the other, with `sep` between each two.
pub open spec fn join(list: Seq<Seq<char>>, sep: Seq<char>) -> Seq<char>
    decreases list.len(),
{
    if list.len() == 0 {
        Seq::empty()
    } else if list.len() == 1 {
        list[0]
    } else {
        join(list.drop_last(), sep) + sep + list.last()
    }
}

/// `s` with each `from` replaced by `to`.
pub open spec fn replaced(s: Seq<char>, from: char, to: char) -> Seq<char> {
    s.map_values(
        |c: char|
            if c == from {
                to
            } else {
                c
            },
    )
}

/// Whether `a` comes before `b` in the order of their code points.
pub open spec fn less_than(a: Seq<char>, b: Seq<char>) -> bool
    decreases a.len(),
{
    if b.len() == 0 {
        false
    } else if a.len() == 0 {
        true
    } else if a[0] != b[0] {
        (a[0] as u32) < (b[0] as u32)
    } else {
        less_than(a.skip(1), b.skip(1))
    }
}

/// Pushing a string pushes its text.
pub broadcast proof fn lemma_texts_push(v: Seq<String>, s: String)
    ensures
        #[trigger] texts(v.push(s)) == texts(v).push(s@),
{
    assert(texts(v.push(s)) =~= texts(v).push(s@));
}

/// What `first_at` is, without recursion.
pub proof fn lemma_first_at(s: Seq<char>, c: char)
    ensures
        0 <= first_at(s, c) <= s.len(),
        forall|j: int| 0 <= j < first_at(s, c) ==> s[j] != c,
        first_at(s, c) < s.len() ==> s[first_at(s, c)] == c,
        s.contains(c) <==> first_at(s, c) < s.len(),
    decreases s.len(),
{
    if s.len() > 0 && s[0] != c {
        let t = s.skip(1);
        lemma_first_at(t, c);
        assert forall|j: int| 0 <= j < first_at(s, c) implies s[j] != c by {
            if j > 0 {
                assert(s[j] == t[j - 1]);
            }
        }
        assert(s.contains(c) <==> t.contains(c)) by {
            if s.contains(c) {
                let i = choose|i: int| 0 <= i < s.len() && s[i] == c;
                assert(t[i - 1] == c);
            }
            if t.contains(c) {
                let i = choose|i: int| 0 <= i < t.len() && t[i] == c;
                assert(s[i + 1] == c);
            }
        }
    } else if s.len() > 0 {
        assert(s.contains(s[0]));
    }
}

/// The first place that holds `c`, with none before it, is `first_at`.
pub proof fn lemma_first_at_is(s: Seq<char>, c: char, i: int)
    requires
        0 <= i <= s.len(),
        forall|j: int| 0 <= j < i ==> s[j] != c,
        i < s.len() ==> s[i] == c,
    ensures
        first_at(s, c) == i,
{
    lemma_first_at(s, c);
    let f = first_at(s, c);
    if f < i {
        assert(s[f] != c);
    }
}

/// The place of the first white space is `word_len`.
proof fn lemma_word_len_is(s: Seq<char>, n: nat)
    requires
        n <= s.len(),
        forall|j: int| 0 <= j < n ==> !is_white(s[j]),
        n < s.len() ==> is_white(s[n as int]),
    ensures
        word_len(s) == n,
{
    lemma_word_len(s);
    let w = word_len(s) as int;
    if w < n {
        assert(!is_white(s[w]));
    }
}

/// Splitting `head`, `c` and `tail` at the first `c` gives back `head` and `tail`.
pub proof fn lemma_split_joined(head: Seq<char>, c: char, tail: Seq<char>)
    requires
        !head.contains(c),
    ensures
        (head + seq![c] + tail).contains(c),
        before(head + seq![c] + tail, c) == head,
        after(head + seq![c] + tail, c) == tail,
{
    let s = head + seq![c] + tail;
    assert(s[head.len() as int] == c);
    assert forall|j: int| 0 <= j < head.len() implies s[j] != c by {
        assert(s[j] == head[j]);
    }
    lemma_first_at_is(s, c, head.len() as int);
    assert(before(s, c) =~= head);
    assert(after(s, c) =~= tail);
}

/// What `drop_leading` leaves, without recursion.
pub proof fn lemma_drop_leading(s: Seq<char>, set: Set<char>, i: int)
    requires
        0 <= i <= s.len(),
        forall|j: int| 0 <= j < i ==> set.contains(s[j]),
        i < s.len() ==> !set.contains(s[i]),
    ensures
        drop_leading(s, set) == s.skip(i),
    decreases s.len(),
{
    if i == 0 {
        assert(s.skip(0) =~= s);
    } else {
        let t = s.skip(1);
        assert forall|j: int| 0 <= j < i - 1 implies set.contains(t[j]) by {
            assert(t[j] == s[j + 1]);
        }
        lemma_drop_leading(t, set, i - 1);
        assert(set.contains(s[0]));
        assert(t.skip(i - 1) =~= s.skip(i));
    }
}

/// What `drop_trailing` leaves, without recursion.
pub proof fn lemma_drop_trailing(s: Seq<char>, set: Set<char>, i: int)
    requires
        0 <= i <= s.len(),
        forall|j: int| i <= j < s.len() ==> set.contains(s[j]),
        i > 0 ==> !set.contains(s[i - 1]),
    ensures
        drop_trailing(s, set) == s.take(i),
    decreases s.len(),
{
    if i == s.len() {
        assert(s.take(i) =~= s);
    } else {
        let t = s.drop_last();
        assert forall|j: int| i <= j < t.len() implies set.contains(t[j]) by {
            assert(t[j] == s[j]);
        }
        lemma_drop_trailing(t, set, i);
        assert(set.contains(s.last()));
        assert(t.take(i) =~= s.take(i));
    }
}

/// A text that does not begin with white space is not blank.
pub proof fn lemma_not_blank(s: Seq<char>)
    requires
        s.len() > 0,
        !is_white(s[0]),
    ensures
        trim_end(s).len() > 0,
    decreases s.len(),
{
    if is_white(s.last()) {
        assert(white_set().contains(s.last()));
        lemma_not_blank(s.drop_last());
    } else {
        assert(!white_set().contains(s.last()));
    }
}

/// White space is trimmed from the end of `b` alone where `b` is not blank.
pub proof fn lemma_trim_end_concat(a: Seq<char>, b: Seq<char>)
    requires
        trim_end(b).len() > 0,
    ensures
        b.len() > 0,
        trim_end(b)[0] == b[0],
        trim_end(a + b) == a + trim_end(b),
    decreases b.len(),
{
    let s = a + b;
    assert(b.len() > 0);
    assert(s.last() == b.last());
    if is_white(b.last()) {
        assert(white_set().contains(b.last()));
        assert(s.drop_last() =~= a + b.drop_last());
        lemma_trim_end_concat(a, b.drop_last());
    } else {
        assert(!white_set().contains(b.last()));
    }
}

/// The characters of `s`, one by one.
pub fn chars_of(s: &str) -> (chars: Vec<char>)
    ensures
        chars@ == s@,
{
    let mut chars: Vec<char> = Vec::new();
    for c in it: s.chars()
        invariant
            it.seq() == s@,
            chars@ == it.seq().take(it.index()),
    {
        chars.push(c);
    }
    assert(s@.take(s@.len() as int) == s@);
    chars
}

/// Whether two texts are the same.
pub fn same(a: &str, b: &str) -> (equal: bool)
    ensures
        equal == (a@ == b@),
{
    a.to_owned() == b.to_owned()
}

/// Whether `list` holds `text`.
pub fn holds(list: &Vec<String>, text: &str) -> (found: bool)
    ensures
        found == texts(list@).contains(text@),
{
    let mut i: usize = 0;
    while i < list.len()
        invariant
            i <= list.len(),
            forall|j: int| 0 <= j < i ==> list@[j]@ != text@,
        decreases list.len() - i,
    {
        if same(list[i].as_str(), text) {
            assert(texts(list@)[i as int] == text@);
            return true;
        }
        i += 1;
    }
    false
}

/// A copy of a list of texts.
pub fn copied(list: &Vec<String>) -> (copy: Vec<String>)
    ensures
        texts(copy@) == texts(list@),
{
    let mut copy: Vec<String> = Vec::new();
    let mut i: usize = 0;
    while i < list.len()
        invariant
            i <= list.len(),
            texts(copy@) == texts(list@).take(i as int),
        decreases list.len() - i,
    {
        proof {
            lemma_texts_push(copy@, list@[i as int]);
            assert(texts(list@).take(i + 1) =~= texts(list@).take(i as int).push(list@[i as int]@));
        }
        copy.push(list[i].clone());
        i += 1;
    }
    assert(texts(list@).take(i as int) =~= texts(list@));
    copy
}

/// `a` and `b` one behind the other.
pub fn cat(a: &str, b: &str) -> (s: String)
    ensures
        s@ == a@ + b@,
{
    let mut s = a.to_owned();
    s.append(b);
    s
}

/// `a`, `b` and `c` one behind the other.
pub fn cat3(a: &str, b: &str, c: &str) -> (s: String)
    ensures
        s@ == a@ + b@ + c@,
{
    let mut s = a.to_owned();
    s.append(b);
    s.append(c);
    s
}

/// Where `c` first stands in `chars`.
fn find(chars: &Vec<char>, c: char) -> (i: usize)
    ensures
        i == first_at(chars@, c),
        i <= chars.len(),
        i < chars.len() <==> chars@.contains(c),
{
    let mut i: usize = 0;
    while i < chars.len() && chars[i] != c
        invariant
            i <= chars.len(),
            forall|j: int| 0 <= j < i ==> chars@[j] != c,
        decreases chars.len() - i,
    {
        i += 1;
    }
    proof {
        lemma_first_at_is(chars@, c, i as int);
        lemma_first_at(chars@, c);
    }
    i
}

/// The part of `s` from character `from` on, up to character `to`.
fn piece(s: &str, from: usize, to: usize) -> (part: String)
    requires
        from <= to <= s@.len(),
    ensures
        part@ == s@.subrange(from as int, to as int),
{
    s.substring_char(from, to).to_owned()
}

/// Splits `s` at its first `c`, into what stands before and what stands behind.
pub fn split_once(s: &str, c: char) -> (parts: Option<(String, String)>)
    ensures
        match parts {
            Some((head, tail)) => s@.contains(c) && head@ == before(s@, c) && tail@ == after(s@, c),
            None => !s@.contains(c),
        },
{
    let chars = chars_of(s);
    let n: usize = chars.len();
    let i: usize = find(&chars, c);
    if i < n {
        let head = piece(s, 0, i);
        let tail = piece(s, i + 1, n);
        assert(head@ =~= before(s@, c));
        assert(tail@ =~= after(s@, c));
        Some((head, tail))
    } else {
        None
    }
}

/// What stands in `s` before its first `c`: all of it where there is none.
pub fn head_of(s: &str, c: char) -> (head: String)
    ensures
        head@ == before(s@, c),
{
    let chars = chars_of(s);
    let i: usize = find(&chars, c);
    let head = piece(s, 0, i);
    assert(head@ =~= before(s@, c));
    head
}

/// What stands in `s` behind its first `c`: nothing where there is none.
pub fn tail_of(s: &str, c: char) -> (tail: String)
    ensures
        tail@ == after(s@, c),
{
    match split_once(s, c) {
        Some((_, tail)) => tail,
        None => String::new(),
    }
}

/// Whether `c` is white space.
pub fn white(c: char) -> (yes: bool)
    ensures
        yes == is_white(c),
{
    let n: u32 = c as u32;
    (0x09 <= n && n <= 0x0d) || n == 0x20 || n == 0x85 || n == 0xa0 || n == 0x1680 || (0x2000 <= n
        && n <= 0x200a) || n == 0x2028 || n == 0x2029 || n == 0x202f || n == 0x205f || n == 0x3000
}

/// The words of `s`, in order.
pub fn words(s: &str) -> (out: Vec<String>)
    ensures
        texts(out@) == words_of(s@),
{
    let chars = chars_of(s);
    let n: usize = chars.len();
    let mut out: Vec<String> = Vec::new();
    let mut i: usize = 0;
    assert(s@.skip(0) =~= s@);
    assert(texts(out@) + words_of(s@) =~= words_of(s@));
    while i < n
        invariant
            i <= n,
            n == chars.len(),
            chars@ == s@,
            texts(out@) + words_of(s@.skip(i as int)) == words_of(s@),
        decreases n - i,
    {
        let ghost rest = s@.skip(i as int);
        if white(chars[i]) {
            assert(rest.skip(1) =~= s@.skip(i + 1));
            i += 1;
        } else {
            let mut j: usize = i + 1;
            while j < n && !white(chars[j])
                invariant
                    i < j <= n,
                    n == chars.len(),
                    forall|k: int| i <= k < j ==> !is_white(chars@[k]),
                decreases n - j,
            {
                j += 1;
            }
            proof {
                lemma_word_len_is(rest, (j - i) as nat);
                assert(rest.take(j - i) =~= s@.subrange(i as int, j as int));
                assert(rest.skip(j - i) =~= s@.skip(j as int));
            }
            let word = piece(s, i, j);
            proof {
                lemma_texts_push(out@, word);
                assert(texts(out@).push(word@) + words_of(s@.skip(j as int)) =~= texts(out@)
                    + words_of(rest));
            }
            out.push(word);
            i = j;
        }
    }
    assert(s@.skip(n as int) =~= Seq::<char>::empty());
    assert(texts(out@) + words_of(Seq::<char>::empty()) =~= texts(out@));
    out
}

/// `s` without white space at its end.
pub fn trimmed_end(s: &str) -> (out: String)
    ensures
        out@ == trim_end(s@),
{
    let chars = chars_of(s);
    let mut i: usize = chars.len();
    while i > 0 && white(chars[i - 1])
        invariant
            i <= chars.len(),
            forall|j: int| i <= j < chars.len() ==> is_white(chars@[j]),
        decreases i,
    {
        i -= 1;
    }
    proof {
        lemma_drop_trailing(s@, white_set(), i as int);
    }
    let out = piece(s, 0, i);
    assert(out@ =~= s@.take(i as int));
    out
}

/// `s` without white space at either end.
pub fn trimmed(s: &str) -> (out: String)
    ensures
        out@ == trim(s@),
{
    let ended = trimmed_end(s);
    let chars = chars_of(ended.as_str());
    let n: usize = chars.len();
    let mut i: usize = 0;
    while i < n && white(chars[i])
        invariant
            n == chars.len(),
            i <= n,
            forall|j: int| 0 <= j < i ==> is_white(chars@[j]),
        decreases n - i,
    {
        i += 1;
    }
    proof {
        lemma_drop_leading(ended@, white_set(), i as int);
    }
    let out = piece(ended.as_str(), i, n);
    assert(out@ =~= ended@.skip(i as int));
    out
}

/// Whether `marks` holds `c`.
pub fn has_char(marks: &str, c: char) -> (found: bool)
    ensures
        found == marks@.contains(c),
{
    let chars = chars_of(marks);
    let i: usize = find(&chars, c);
    i < chars.len()
}

/// `s` without the characters of `marks` that it starts with.
pub fn without_marks(s: &str, marks: &str) -> (out: String)
    ensures
        out@ == drop_leading(s@, marks@.to_set()),
{
    let chars = chars_of(s);
    let n: usize = chars.len();
    let mut i: usize = 0;
    while i < n && has_char(marks, chars[i])
        invariant
            n == chars.len(),
            i <= n,
            forall|j: int| 0 <= j < i ==> marks@.to_set().contains(chars@[j]),
        decreases n - i,
    {
        i += 1;
    }
    proof {
        lemma_drop_leading(s@, marks@.to_set(), i as int);
    }
    let out = piece(s, i, n);
    assert(out@ =~= s@.skip(i as int));
    out
}

/// `s` without each `c` that it starts or ends with.
pub fn without_ends(s: &str, c: char) -> (out: String)
    ensures
        out@ == drop_leading(drop_trailing(s@, set![c]), set![c]),
{
    let chars = chars_of(s);
    let mut n: usize = chars.len();
    while n > 0 && chars[n - 1] == c
        invariant
            n <= chars.len(),
            forall|j: int| n <= j < chars.len() ==> chars@[j] == c,
        decreases n,
    {
        n -= 1;
    }
    proof {
        lemma_drop_trailing(s@, set![c], n as int);
    }
    let mut i: usize = 0;
    while i < n && chars[i] == c
        invariant
            i <= n <= chars.len(),
            forall|j: int| 0 <= j < i ==> chars@[j] == c,
        decreases n - i,
    {
        i += 1;
    }
    proof {
        lemma_drop_leading(s@.take(n as int), set![c], i as int);
    }
    let out = piece(s, i, n);
    assert(out@ =~= s@.take(n as int).skip(i as int));
    out
}

/// `s` with a blank in place of each `c`.
pub fn blanked(s: &str, c: char) -> (out: String)
    ensures
        out@ == replaced(s@, c, ' '),
{
    proof {
        reveal_strlit(" ");
    }
    let chars = chars_of(s);
    let n: usize = chars.len();
    let mut out = String::new();
    let mut i: usize = 0;
    while i < n
        invariant
            n == chars.len(),
            i <= n,
            chars@ == s@,
            " "@ == seq![' '],
            out@ == replaced(s@, c, ' ').take(i as int),
        decreases n - i,
    {
        if chars[i] == c {
            out.append(" ");
        } else {
            out.append(piece(s, i, i + 1).as_str());
        }
        assert(out@ =~= replaced(s@, c, ' ').take(i + 1));
        i += 1;
    }
    assert(replaced(s@, c, ' ').take(n as int) =~= replaced(s@, c, ' '));
    out
}

/// The texts of `list` one behind the other, with `sep` between each two.
pub fn joined(list: &Vec<String>, sep: &str) -> (out: String)
    ensures
        out@ == join(texts(list@), sep@),
{
    let mut out = String::new();
    let mut i: usize = 0;
    assert(texts(list@).take(0) =~= Seq::<Seq<char>>::empty());
    while i < list.len()
        invariant
            i <= list.len(),
            out@ == join(texts(list@).take(i as int), sep@),
        decreases list.len() - i,
    {
        if i > 0 {
            out.append(sep);
        }
        out.append(list[i].as_str());
        proof {
            let next = texts(list@).take(i + 1);
            assert(next.drop_last() =~= texts(list@).take(i as int));
            assert(next.last() == list@[i as int]@);
            assert(Seq::<char>::empty() + list@[i as int]@ =~= list@[i as int]@);
        }
        i += 1;
    }
    assert(texts(list@).take(i as int) =~= texts(list@));
    out
}

} // verus!
