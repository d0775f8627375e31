//! The local time, and lines that carry it.

use vstd::prelude::*;

verus! {

/// Whether `c` is a decimal digit.
pub open spec fn is_digit(c: char) -> bool {
    '0' <= c <= '9'
}

/// Hours and minutes of a day, as two digits each with a colon between them.
pub open spec fn is_time_of_day(s: Seq<char>) -> bool {
    &&& s.len() == 5
    &&& is_digit(s[0]) && is_digit(s[1]) && s[2] == ':' && is_digit(s[3]) && is_digit(s[4])
    &&& s[0] < '2' || (s[0] == '2' && s[1] < '4')
    &&& s[3] < '6'
}

/// Whether `s` is of the form `form`: a digit where it has a `9`, a letter where it has an `a`,
/// a sign where it has a `+`, and elsewhere the same character.
pub open spec fn is_of_form(s: Seq<char>, form: Seq<char>) -> bool {
    &&& s.len() == form.len()
    &&& forall|i: int|
        0 <= i < s.len() ==> match form[i] {
            '9' => is_digit(#[trigger] s[i]),
            'a' => 'a' <= s[i] <= 'z' || 'A' <= s[i] <= 'Z',
            '+' => s[i] == '+' || s[i] == '-',
            c => s[i] == c,
        }
}

/// The days of the week, as RFC 2822 writes them.
pub open spec fn week_days() -> Seq<Seq<char>> {
    seq!["Sun"@, "Mon"@, "Tue"@, "Wed"@, "Thu"@, "Fri"@, "Sat"@]
}

/// The months, as RFC 2822 writes them.
pub open spec fn months() -> Seq<Seq<char>> {
    seq![
        "Jan"@, "Feb"@, "Mar"@, "Apr"@, "May"@, "Jun"@,
        "Jul"@, "Aug"@, "Sep"@, "Oct"@, "Nov"@, "Dec"@,
    ]
}

/// A date with a time of day and the offset of its time zone, as RFC 2822 writes it: such as
/// `Tue, 1 Jul 2003 10:52:37 +0200`. The day of the month has one digit or two.
pub open spec fn is_date_and_time(s: Seq<char>) -> bool {
    &&& is_of_form(s, "aaa, 9 aaa 9999 99:99:99 +9999"@) || is_of_form(
        s,
        "aaa, 99 aaa 9999 99:99:99 +9999"@,
    )
    &&& week_days().contains(s.take(3))
    &&& months().contains(s.subrange(s.len() - 23, s.len() - 20))
}

/// There is such a date.
pub(crate) proof fn lemma_date_and_time()
    ensures
        is_date_and_time("Thu, 1 Jan 1970 00:00:00 +0000"@),
{
    reveal_strlit("Thu, 1 Jan 1970 00:00:00 +0000");
    reveal_strlit("aaa, 9 aaa 9999 99:99:99 +9999");
    reveal_strlit("Thu");
    reveal_strlit("Jan");
    let date = "Thu, 1 Jan 1970 00:00:00 +0000"@;
    assert(date.take(3) =~= week_days()[4]);
    assert(date.subrange(7, 10) =~= months()[0]);
}

/// Calls `chrono::Local::now` and formats the result by `%H:%M`.
///
/// Believed of chrono: this is a time of day, its hour and its minute as two digits each with
/// a colon between them. Which time it is depends on the clock and on the time zone.
#[verifier::external_body]
fn local_time_of_day() -> (time: String)
    ensures
        is_time_of_day(time@),
{
    chrono::Local::now().format("%H:%M").to_string()
}

/// Calls `chrono::Local::now` and `chrono::DateTime::to_rfc2822` on the result.
///
/// Believed of chrono: this is a date with a time of day and the offset of its time zone, as
/// RFC 2822 writes it. Which time it is depends on the clock and on the time zone. The call does not return where the
/// clock shows a year of more than four digits.
#[verifier::external_body]
pub(crate) fn local_date_and_time() -> (time: String)
    ensures
        is_date_and_time(time@),
{
    chrono::Local::now().to_rfc2822()
}

/// The local time of day, by which lines are stamped.
pub fn timestamp() -> (stamp: String)
    ensures
        is_time_of_day(stamp@),
{
    local_time_of_day()
}

/// A line as it is put into a buffer: `text` behind `stamp` in square brackets, and the end
/// of the line.
pub open spec fn stamped_text(stamp: Seq<char>, text: Seq<char>) -> Seq<char> {
    "["@ + stamp + "] "@ + text + "\n"@
}

/// A line as it is put into a buffer.
pub fn stamped(stamp: &str, text: &str) -> (line: String)
    ensures
        line@ == stamped_text(stamp@, text@),
{
    let mut line = "[".to_owned();
    line.append(stamp);
    line.append("] ");
    line.append(text);
    line.append("\n");
    line
}

/// A line in a buffer is its time in square brackets, a blank, its text and the end of the line,
/// with nothing left out.
pub proof fn law_stamps_change_no_text(stamp: Seq<char>, text: Seq<char>)
    ensures
        stamped_text(stamp, text) == seq!['['] + stamp + seq![']', ' '] + text + seq!['\n'],
{
    reveal_strlit("[");
    reveal_strlit("] ");
    reveal_strlit("\n");
    assert("["@ =~= seq!['[']);
    assert("] "@ =~= seq![']', ' ']);
    assert("\n"@ =~= seq!['\n']);
}

} // verus!
