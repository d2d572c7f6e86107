//! Text helpers shared by the metadata readers and writers.

use vstd::prelude::*;
use vstd::string::*;

verus! {

/// The characters of `s`, in order.
pub fn chars_of(s: &str) -> (chars: Vec<char>)
    ensures
        chars@ == s@,
{
    let mut chars: Vec<char> = Vec::new();
    for c in it: s.chars()
        invariant
            chars@ == it.seq().take(it.index()),
            it.seq() == s@,
    {
        chars.push(c);
    }
    chars
}

/// `String::push` of the standard library puts the character at the end of
/// the string, and leaves what the string held before it.
pub assume_specification[ String::push ](text: &mut String, ch: char)
    ensures
        final(text)@ == old(text)@.push(ch),
;

/// The string of the characters of `chars` from `from` up to, but without,
/// `to`.
pub fn string_of(chars: &Vec<char>, from: usize, to: usize) -> (text: String)
    requires
        from <= to <= chars.len(),
    ensures
        text@ == chars@.subrange(from as int, to as int),
{
    let mut text = String::new();
    let mut at: usize = from;
    assert(chars@.subrange(from as int, from as int) =~= Seq::<char>::empty());
    while at < to
        invariant
            from <= at <= to <= chars.len(),
            text@ == chars@.subrange(from as int, at as int),
        decreases to - at,
    {
        text.push(chars[at]);
        assert(chars@.subrange(from as int, at + 1) =~= chars@.subrange(
            from as int,
            at as int,
        ).push(chars@[at as int]));
        at += 1;
    }
    text
}

/// Whether two strings hold the same characters.
pub fn same_text(a: &str, b: &str) -> (same: bool)
    ensures
        same == (a@ == b@),
{
    a.to_owned() == b.to_owned()
}

/// The place of the first `c` in `text`, or the length of `text` when it
/// holds none.
pub open spec fn first_of(text: Seq<char>, c: char) -> nat
    decreases text.len(),
{
    if text.len() == 0 || text[0] == c {
        0
    } else {
        1 + first_of(text.drop_first(), c)
    }
}

/// [`first_of`] is the one place before which no `c` stands and at which the
/// text ends or holds `c`.
pub proof fn first_of_is(text: Seq<char>, c: char, n: int)
    requires
        0 <= n <= text.len(),
        forall|i: int| 0 <= i < n ==> text[i] != c,
        n == text.len() || text[n] == c,
    ensures
        first_of(text, c) == n,
    decreases text.len(),
{
    if n > 0 {
        let rest = text.drop_first();
        assert forall|i: int| 0 <= i < n - 1 implies rest[i] != c by {
            assert(rest[i] == text[i + 1]);
        }
        first_of_is(rest, c, n - 1);
    }
}

/// A line without the carriage return that ends it, if one does.
pub open spec fn without_cr(line: Seq<char>) -> Seq<char> {
    if line.len() > 0 && line.last() == '\r' {
        line.drop_last()
    } else {
        line
    }
}

/// The lines of a text. A line ends at a line feed, or at a carriage return
/// followed by a line feed; neither belongs to the line. What follows the last
/// line feed is a line of its own unless it is empty.
pub open spec fn lines_of(text: Seq<char>) -> Seq<Seq<char>>
    decreases text.len(),
{
    if text.len() == 0 {
        Seq::empty()
    } else {
        let n = first_of(text, '\n') as int;
        if n >= text.len() {
            seq![text]
        } else {
            seq![without_cr(text.take(n))] + lines_of(text.skip(n + 1))
        }
    }
}

/// The text that holds each of `lines` followed by a line feed.
pub open spec fn unlines_of(lines: Seq<Seq<char>>) -> Seq<char>
    decreases lines.len(),
{
    if lines.len() == 0 {
        Seq::empty()
    } else {
        unlines_of(lines.drop_last()) + lines.last() + seq!['\n']
    }
}

/// Whether `line` can be a line of a text: it holds no line feed and does not
/// end in a carriage return.
pub open spec fn is_line(line: Seq<char>) -> bool {
    !line.contains('\n') && !(line.len() > 0 && line.last() == '\r')
}

/// [`unlines_of`], from the first line on.
pub proof fn unlines_of_first(lines: Seq<Seq<char>>)
    requires
        lines.len() > 0,
    ensures
        unlines_of(lines) == lines[0] + seq!['\n'] + unlines_of(lines.drop_first()),
    decreases lines.len(),
{
    if lines.len() == 1 {
        assert(lines.drop_last() =~= Seq::<Seq<char>>::empty());
        assert(lines.drop_first() =~= Seq::<Seq<char>>::empty());
        assert(unlines_of(lines) =~= lines[0] + seq!['\n'] + unlines_of(lines.drop_first()));
    } else {
        unlines_of_first(lines.drop_last());
        assert(lines.drop_last().drop_first() =~= lines.drop_first().drop_last());
        assert(lines.drop_last()[0] == lines[0]);
        assert(lines.drop_first().last() == lines.last());
        assert(unlines_of(lines) =~= lines[0] + seq!['\n'] + unlines_of(lines.drop_first()));
    }
}

/// Lines that are written as a text are read back from it as they were.
pub proof fn lines_of_inverts_unlines_of(lines: Seq<Seq<char>>)
    requires
        forall|i: int| 0 <= i < lines.len() ==> is_line(#[trigger] lines[i]),
    ensures
        lines_of(unlines_of(lines)) == lines,
    decreases lines.len(),
{
    if lines.len() > 0 {
        let first = lines[0];
        let rest = lines.drop_first();
        let text = unlines_of(lines);
        unlines_of_first(lines);
        assert(is_line(first));
        assert forall|i: int| 0 <= i < rest.len() implies is_line(#[trigger] rest[i]) by {
            assert(rest[i] == lines[i + 1]);
        }
        lines_of_inverts_unlines_of(rest);
        let n = first.len() as int;
        assert forall|i: int| 0 <= i < n implies text[i] != '\n' by {
            assert(text[i] == first[i]);
            assert(first.contains(first[i]));
        }
        assert(text[n] == '\n');
        first_of_is(text, '\n', n);
        assert(text.take(n) =~= first);
        assert(text.skip(n + 1) =~= unlines_of(rest));
        assert(without_cr(first) == first);
        assert(seq![first] + rest =~= lines);
    }
}

/// The characters that count as white space.
pub open spec fn is_space(c: char) -> bool {
    let n = c as int;
    (0x09 <= n <= 0x0d) || n == 0x20 || n == 0x85 || n == 0xa0 || n == 0x1680 || (0x2000 <= n
        <= 0x200a) || n == 0x2028 || n == 0x2029 || n == 0x202f || n == 0x205f || n == 0x3000
}

/// The number of white space characters that `text` begins with.
pub open spec fn leading_space(text: Seq<char>) -> int
    decreases text.len(),
{
    if text.len() == 0 || !is_space(text[0]) {
        0
    } else {
        1 + leading_space(text.drop_first())
    }
}

/// The number of white space characters that `text` ends with.
pub open spec fn trailing_space(text: Seq<char>) -> int
    decreases text.len(),
{
    if text.len() == 0 || !is_space(text.last()) {
        0
    } else {
        1 + trailing_space(text.drop_last())
    }
}

/// `text` without the white space around it.
pub open spec fn trimmed(text: Seq<char>) -> Seq<char> {
    let rest = text.skip(leading_space(text));
    rest.take(rest.len() - trailing_space(rest))
}

proof fn leading_space_is(text: Seq<char>, n: int)
    requires
        0 <= n <= text.len(),
        forall|i: int| 0 <= i < n ==> is_space(text[i]),
        n == text.len() || !is_space(text[n]),
    ensures
        leading_space(text) == n,
    decreases text.len(),
{
    if n > 0 {
        let rest = text.drop_first();
        assert forall|i: int| 0 <= i < n - 1 implies is_space(rest[i]) by {
            assert(rest[i] == text[i + 1]);
        }
        leading_space_is(rest, n - 1);
    }
}

proof fn trailing_space_is(text: Seq<char>, n: int)
    requires
        0 <= n <= text.len(),
        forall|i: int| text.len() - n <= i < text.len() ==> is_space(text[i]),
        n == text.len() || !is_space(text[text.len() - n - 1]),
    ensures
        trailing_space(text) == n,
    decreases text.len(),
{
    if n > 0 {
        let rest = text.drop_last();
        assert forall|i: int| rest.len() - (n - 1) <= i < rest.len() implies is_space(rest[i]) by {
            assert(rest[i] == text[i]);
        }
        trailing_space_is(rest, n - 1);
    }
}

/// Whether `c` counts as white space.
pub fn is_white_space(c: char) -> (space: bool)
    ensures
        space == is_space(c),
{
    let n: u32 = c as u32;
    (0x09 <= n && n <= 0x0d) || n == 0x20 || n == 0x85 || n == 0xa0 || n == 0x1680 || (0x2000 <= n
        && n <= 0x200a) || n == 0x2028 || n == 0x2029 || n == 0x202f || n == 0x205f || n == 0x3000
}

/// `text` without the white space around it.
pub fn trim(text: &str) -> (inner: String)
    ensures
        inner@ == trimmed(text@),
{
    let chars = chars_of(text);
    let mut from: usize = 0;
    while from < chars.len() && is_white_space(chars[from])
        invariant
            from <= chars.len(),
            forall|i: int| 0 <= i < from ==> is_space(chars@[i]),
        decreases chars.len() - from,
    {
        from += 1;
    }
    let mut to: usize = chars.len();
    while to > from && is_white_space(chars[to - 1])
        invariant
            from <= to <= chars.len(),
            forall|i: int| to <= i < chars.len() ==> is_space(chars@[i]),
        decreases to,
    {
        to -= 1;
    }
    proof {
        leading_space_is(chars@, from as int);
        let rest = chars@.skip(from as int);
        assert forall|i: int|
            rest.len() - (chars.len() - to) <= i < rest.len() implies is_space(rest[i]) by {
            assert(rest[i] == chars@[i + from]);
        }
        if to > from {
            assert(rest[to - from - 1] == chars@[to - 1]);
        }
        trailing_space_is(rest, chars.len() - to);
        assert(rest.take(rest.len() - (chars.len() - to)) =~= text@.subrange(
            from as int,
            to as int,
        ));
    }
    string_of(&chars, from, to)
}

/// The lines of `text`: see [`lines_of`].
pub fn lines(text: &str) -> (found: Vec<String>)
    ensures
        found.deep_view() == lines_of(text@),
{
    let chars = chars_of(text);
    let mut found: Vec<String> = Vec::new();
    let mut from: usize = 0;
    assert(text@.skip(0) =~= text@);
    assert(found.deep_view() =~= Seq::<Seq<char>>::empty());
    while from < chars.len()
        invariant
            from <= chars.len(),
            chars@ == text@,
            found.deep_view() + lines_of(text@.skip(from as int)) == lines_of(text@),
        decreases chars.len() - from,
    {
        let ghost rest = text@.skip(from as int);
        let ghost before = found.deep_view();
        let mut to: usize = from;
        while to < chars.len() && chars[to] != '\n'
            invariant
                from <= to <= chars.len(),
                forall|i: int| from <= i < to ==> chars@[i] != '\n',
            decreases chars.len() - to,
        {
            to += 1;
        }
        proof {
            assert forall|i: int| 0 <= i < to - from implies rest[i] != '\n' by {
                assert(rest[i] == chars@[i + from]);
            }
            if to < chars.len() {
                assert(rest[to - from] == chars@[to as int]);
            }
            first_of_is(rest, '\n', to - from);
        }
        if to == chars.len() {
            let line = string_of(&chars, from, to);
            found.push(line);
            proof {
                assert(text@.subrange(from as int, to as int) =~= rest);
                assert(found.deep_view() =~= before.push(rest));
                assert(text@.skip(to as int).len() == 0);
                assert(before + seq![rest] =~= before.push(rest) + lines_of(
                    text@.skip(to as int),
                ));
            }
            from = to;
        } else {
            let end = if to > from && chars[to - 1] == '\r' {
                to - 1
            } else {
                to
            };
            let line = string_of(&chars, from, end);
            found.push(line);
            proof {
                let whole = rest.take(to - from);
                assert(whole =~= text@.subrange(from as int, to as int));
                if to > from {
                    assert(whole.last() == chars@[to - 1]);
                }
                assert(without_cr(whole) =~= text@.subrange(from as int, end as int));
                assert(found.deep_view() =~= before.push(without_cr(whole)));
                assert(rest.skip(to - from + 1) =~= text@.skip(to + 1));
                assert(before + (seq![without_cr(whole)] + lines_of(text@.skip(to + 1)))
                    =~= before.push(without_cr(whole)) + lines_of(text@.skip(to + 1)));
            }
            from = to + 1;
        }
    }
    assert(lines_of(text@.skip(from as int)) =~= Seq::<Seq<char>>::empty());
    assert(found.deep_view() + Seq::<Seq<char>>::empty() =~= found.deep_view());
    found
}

/// The text that holds each of `lines` followed by a line feed.
pub fn unlines(lines: &Vec<String>) -> (text: String)
    ensures
        text@ == unlines_of(lines.deep_view()),
{
    let mut text = String::new();
    let mut i: usize = 0;
    assert(lines.deep_view().take(0) =~= Seq::<Seq<char>>::empty());
    while i < lines.len()
        invariant
            i <= lines.len(),
            text@ == unlines_of(lines.deep_view().take(i as int)),
        decreases lines.len() - i,
    {
        proof {
            reveal_strlit("\n");
            let upto = lines.deep_view().take(i + 1);
            assert(upto.drop_last() =~= lines.deep_view().take(i as int));
            assert(upto.last() == lines[i as int]@);
            assert("\n"@ =~= seq!['\n']);
        }
        text.append(lines[i].as_str());
        text.append("\n");
        i += 1;
    }
    assert(lines.deep_view().take(lines.len() as int) =~= lines.deep_view());
    text
}

/// What stands before and after the first `c` of `text`, if it holds one.
pub open spec fn split_at_first(text: Seq<char>, c: char) -> Option<(Seq<char>, Seq<char>)> {
    let n = first_of(text, c) as int;
    if n >= text.len() {
        None
    } else {
        Some((text.take(n), text.skip(n + 1)))
    }
}

/// What stands before and after the first `c` of `text`, if it holds one.
pub fn split_once(text: &str, c: char) -> (parts: Option<(String, String)>)
    ensures
        parts.deep_view() == split_at_first(text@, c),
{
    let chars = chars_of(text);
    let mut at: usize = 0;
    while at < chars.len() && chars[at] != c
        invariant
            at <= chars.len(),
            forall|i: int| 0 <= i < at ==> chars@[i] != c,
        decreases chars.len() - at,
    {
        at += 1;
    }
    proof {
        first_of_is(text@, c, at as int);
    }
    if at == chars.len() {
        None
    } else {
        let head = string_of(&chars, 0, at);
        let tail = string_of(&chars, at + 1, chars.len());
        assert(text@.subrange(0, at as int) =~= text@.take(at as int));
        assert(text@.subrange(at + 1, chars.len() as int) =~= text@.skip(at + 1));
        Some((head, tail))
    }
}

/// Whether `list` holds a string with the characters of `wanted`.
pub fn holds(list: &Vec<String>, wanted: &str) -> (found: bool)
    ensures
        found == list.deep_view().contains(wanted@),
{
    let key = wanted.to_owned();
    let mut i: usize = 0;
    while i < list.len()
        invariant
            i <= list.len(),
            key@ == wanted@,
            forall|j: int| 0 <= j < i ==> list.deep_view()[j] != wanted@,
        decreases list.len() - i,
    {
        if list[i] == key {
            assert(list.deep_view()[i as int] == wanted@);
            return true;
        }
        i += 1;
    }
    false
}

/// A copy of `list`, string by string.
pub fn clone_strings(list: &Vec<String>) -> (copy: Vec<String>)
    ensures
        copy.deep_view() == list.deep_view(),
{
    let mut copy: Vec<String> = Vec::new();
    let mut i: usize = 0;
    while i < list.len()
        invariant
            i <= list.len(),
            copy.len() == i,
            forall|j: int| 0 <= j < i ==> copy[j]@ == list[j]@,
        decreases list.len() - i,
    {
        copy.push(list[i].clone());
        i += 1;
    }
    assert(copy.deep_view() =~= list.deep_view());
    copy
}

} // verus!
