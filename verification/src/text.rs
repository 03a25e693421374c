//! Text helpers for message bodies: truncation and markup escaping.

use vstd::prelude::*;
use vstd::string::*;

verus! {

/// The marker that ends a truncated text.
pub open spec fn ellipsis() -> Seq<char> {
    seq!['.', '.', '.']
}

/// `s` cut down to at most `max` characters. A text that had to be cut ends
/// in an ellipsis where `max` leaves room for one.
pub open spec fn truncated(s: Seq<char>, max: nat) -> Seq<char> {
    if s.len() <= max {
        s
    } else if max >= 3 {
        s.take(max - 3) + ellipsis()
    } else {
        s.take(max as int)
    }
}

/// A truncated text never exceeds the limit, and a text within the limit is
/// left as it is.
pub proof fn lemma_truncated_len(s: Seq<char>, max: nat)
    ensures
        truncated(s, max).len() <= max,
        s.len() <= max ==> truncated(s, max) == s,
        s.len() > max ==> truncated(s, max).len() == max,
{
}

/// Cuts `s` down to at most `max` characters.
pub fn truncate_message(s: &str, max: usize) -> (out: String)
    ensures
        out@ == truncated(s@, max as nat),
{
    let n = s.unicode_len();
    if n <= max {
        String::from_str(s)
    } else if max >= 3 {
        proof {
            reveal_strlit("...");
            assert("..."@ =~= ellipsis());
        }
        String::from_str(s.substring_char(0, max - 3)).concat("...")
    } else {
        String::from_str(s.substring_char(0, max))
    }
}

/// Whether two texts are the same.
pub fn same_text(a: &str, b: &str) -> (same: bool)
    ensures
        same == (a@ == b@),
{
    String::from_str(a) == String::from_str(b)
}

/// `String::push` appends one character to the text.
pub assume_specification[ String::push ](s: &mut String, c: char)
    ensures
        final(s)@ == old(s)@.push(c),
;

/// What stands for `c` in the body of a marked-up message.
pub open spec fn escape_char(c: char) -> Seq<char> {
    if c == '&' {
        "&amp;"@
    } else if c == '<' {
        "&lt;"@
    } else if c == '>' {
        "&gt;"@
    } else if c == '"' {
        "&quot;"@
    } else {
        seq![c]
    }
}

/// `s` with every character that markup would read as its own replaced by
/// the entity that stands for it.
pub open spec fn escaped(s: Seq<char>) -> Seq<char>
    decreases s.len(),
{
    if s.len() == 0 {
        Seq::empty()
    } else {
        escaped(s.drop_last()) + escape_char(s.last())
    }
}

/// Escapes `s` for the body of a marked-up message.
pub fn escape(s: &str) -> (out: String)
    ensures
        out@ == escaped(s@),
{
    let mut out = String::new();
    for c in it: s.chars()
        invariant
            it.seq() == s@,
            out@ == escaped(s@.take(it.index())),
    {
        assert(s@.take(it.index() + 1).drop_last() == s@.take(it.index()));
        if c == '&' {
            out.append("&amp;");
        } else if c == '<' {
            out.append("&lt;");
        } else if c == '>' {
            out.append("&gt;");
        } else if c == '"' {
            out.append("&quot;");
        } else {
            out.push(c);
        }
    }
    assert(s@.take(s@.len() as int) == s@);
    out
}

/// Escaping goes character by character: the escaped form of two texts in a
/// row is the two escaped forms in a row.
pub proof fn lemma_escaped_concat(a: Seq<char>, b: Seq<char>)
    ensures
        escaped(a + b) == escaped(a) + escaped(b),
    decreases b.len(),
{
    if b.len() == 0 {
        assert(a + b =~= a);
        assert(escaped(a) + escaped(b) =~= escaped(a));
    } else {
        lemma_escaped_concat(a, b.drop_last());
        assert((a + b).drop_last() =~= a + b.drop_last());
        assert((a + b).last() == b.last());
        assert(escaped(a + b) =~= escaped(a) + escaped(b));
    }
}

/// Escaping never shortens: the escaped form of the start of a text is no
/// longer than that of the whole, and no shorter than the start itself.
pub proof fn lemma_escaped_len(s: Seq<char>, i: int)
    requires
        0 <= i <= s.len(),
    ensures
        i <= escaped(s.take(i)).len() <= escaped(s).len(),
    decreases s.len(),
{
    reveal_strlit("&amp;");
    reveal_strlit("&lt;");
    reveal_strlit("&gt;");
    reveal_strlit("&quot;");
    if s.len() == 0 {
        assert(s.take(i) =~= s);
    } else if i == s.len() {
        assert(s.take(i) =~= s);
        lemma_escaped_len(s.drop_last(), i - 1);
        assert(s.drop_last().take(i - 1) =~= s.drop_last());
    } else {
        lemma_escaped_len(s.drop_last(), i);
        assert(s.drop_last().take(i) =~= s.take(i));
    }
}

/// The length of the longest start of `s` whose escaped form has at most
/// `room` characters.
pub open spec fn fitting(s: Seq<char>, room: int) -> nat
    decreases s.len(),
{
    if s.len() == 0 {
        0
    } else if escaped(s).len() <= room {
        s.len()
    } else {
        fitting(s.drop_last(), room)
    }
}

/// `s` cut down so that its escaped form has at most `room` characters. A
/// text that fits is left whole. A text that has to be cut loses as little
/// of its end as makes room for an ellipsis, and nothing is left of it where
/// there is no room for one.
pub open spec fn cut_to_fit(s: Seq<char>, room: int) -> Seq<char> {
    if escaped(s).len() <= room {
        s
    } else if room >= 3 {
        s.take(fitting(s, room - 3) as int) + ellipsis()
    } else {
        Seq::empty()
    }
}

/// The start that fits is a start of the text, it does fit where there is
/// any room at all, and one character more would not.
pub proof fn lemma_fitting(s: Seq<char>, room: int)
    ensures
        fitting(s, room) <= s.len(),
        room >= 0 ==> escaped(s.take(fitting(s, room) as int)).len() <= room,
        fitting(s, room) < s.len() ==> escaped(s.take(fitting(s, room) as int + 1)).len() > room,
    decreases s.len(),
{
    if s.len() == 0 {
        assert(s.take(0) =~= s);
    } else if escaped(s).len() <= room {
        assert(s.take(s.len() as int) =~= s);
    } else {
        let rest = s.drop_last();
        let k = fitting(rest, room) as int;
        lemma_fitting(rest, room);
        assert(rest.take(k) =~= s.take(k));
        if k < rest.len() {
            assert(rest.take(k + 1) =~= s.take(k + 1));
        } else {
            assert(s.take(k + 1) =~= s);
        }
    }
}

/// A start that fits while one character more does not is the longest start
/// that fits.
proof fn lemma_fitting_is(s: Seq<char>, room: int, k: int)
    requires
        0 <= k <= s.len(),
        k == 0 || escaped(s.take(k)).len() <= room,
        k < s.len() ==> escaped(s.take(k + 1)).len() > room,
    ensures
        fitting(s, room) == k,
    decreases s.len(),
{
    if s.len() == 0 {
    } else if k == s.len() {
        assert(s.take(k) =~= s);
    } else {
        let rest = s.drop_last();
        lemma_escaped_len(s, k + 1);
        assert(rest.take(k) =~= s.take(k));
        if k < rest.len() {
            assert(rest.take(k + 1) =~= s.take(k + 1));
        }
        lemma_fitting_is(rest, room, k);
    }
}

/// What is cut to fit does fit, and what fits is not cut.
pub proof fn lemma_cut_to_fit(s: Seq<char>, room: int)
    ensures
        room >= 0 ==> escaped(cut_to_fit(s, room)).len() <= room,
        escaped(s).len() <= room ==> cut_to_fit(s, room) == s,
{
    if escaped(s).len() > room && room >= 3 {
        let start = s.take(fitting(s, room - 3) as int);
        lemma_fitting(s, room - 3);
        lemma_escaped_concat(start, ellipsis());
        assert(escaped(ellipsis()) =~= ellipsis()) by {
            reveal_with_fuel(escaped, 4);
            assert(ellipsis().drop_last() =~= seq!['.', '.']);
            assert(ellipsis().drop_last().drop_last() =~= seq!['.']);
            assert(ellipsis().drop_last().drop_last().drop_last() =~= Seq::<char>::empty());
        }
    }
}

/// How many characters stand for `c` in escaped text.
fn escaped_width(c: char) -> (width: usize)
    ensures
        width == escape_char(c).len(),
        1 <= width <= 6,
{
    proof {
        reveal_strlit("&amp;");
        reveal_strlit("&lt;");
        reveal_strlit("&gt;");
        reveal_strlit("&quot;");
    }
    if c == '&' {
        5
    } else if c == '<' {
        4
    } else if c == '>' {
        4
    } else if c == '"' {
        6
    } else {
        1
    }
}

/// Counts the characters of the longest start of `s` whose escaped form has
/// at most `room` characters.
fn count_fitting(s: &str, room: usize) -> (count: usize)
    ensures
        count == fitting(s@, room as int),
        count <= s@.len(),
        (count == s@.len()) == (escaped(s@).len() <= room),
{
    let mut count: usize = 0;
    let mut used: usize = 0;
    let mut open = true;
    assert(s@.take(0) =~= Seq::<char>::empty());
    for c in it: s.chars()
        invariant
            it.seq() == s@,
            count <= it.index(),
            count <= used <= room,
            open ==> count == it.index() && used == escaped(s@.take(it.index())).len() && used
                <= room,
            !open ==> count < s@.len() && escaped(s@.take(count as int)).len() <= room && escaped(
                s@.take(count + 1),
            ).len() > room,
    {
        assert(s@.take(it.index() + 1).drop_last() == s@.take(it.index()));
        if open {
            let width = escaped_width(c);
            if width > room - used {
                open = false;
            } else {
                used = used + width;
                count = count + 1;
            }
        }
    }
    proof {
        lemma_fitting_is(s@, room as int, count as int);
        lemma_fitting(s@, room as int);
        assert(s@.take(s@.len() as int) =~= s@);
        if count < s@.len() {
            lemma_escaped_len(s@, count + 1);
        }
    }
    count
}

/// Cuts `s` down so that its escaped form has at most `room` characters.
pub fn fit_text(s: &str, room: usize) -> (out: String)
    ensures
        out@ == cut_to_fit(s@, room as int),
{
    let whole = count_fitting(s, room);
    if whole == s.unicode_len() {
        String::from_str(s)
    } else if room >= 3 {
        proof {
            reveal_strlit("...");
            assert("..."@ =~= ellipsis());
        }
        let count = count_fitting(s, room - 3);
        String::from_str(s.substring_char(0, count)).concat("...")
    } else {
        String::new()
    }
}

/// What stands for `c` inside a link.
pub open spec fn escape_url_char(c: char) -> Seq<char> {
    if c == '<' {
        "%3C"@
    } else if c == '>' {
        "%3E"@
    } else if c == '"' {
        "%22"@
    } else {
        seq![c]
    }
}

/// `s` with the characters that would end a link in markup replaced by their
/// percent-encoded form.
pub open spec fn url_escaped(s: Seq<char>) -> Seq<char>
    decreases s.len(),
{
    if s.len() == 0 {
        Seq::empty()
    } else {
        url_escaped(s.drop_last()) + escape_url_char(s.last())
    }
}

/// Escapes the link `s` for a marked-up message.
pub fn escape_url(s: &str) -> (out: String)
    ensures
        out@ == url_escaped(s@),
{
    let mut out = String::new();
    for c in it: s.chars()
        invariant
            it.seq() == s@,
            out@ == url_escaped(s@.take(it.index())),
    {
        assert(s@.take(it.index() + 1).drop_last() == s@.take(it.index()));
        if c == '<' {
            out.append("%3C");
        } else if c == '>' {
            out.append("%3E");
        } else if c == '"' {
            out.append("%22");
        } else {
            out.push(c);
        }
    }
    assert(s@.take(s@.len() as int) == s@);
    out
}

} // verus!
