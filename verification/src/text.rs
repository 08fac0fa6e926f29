//! Text: numerals, blanks, lines and indentation, over sequences of characters.

use vstd::prelude::*;
use vstd::string::*;

verus! {

/// `n` blanks.
pub open spec fn spaces(n: nat) -> Seq<char> {
    Seq::new(n, |i: int| ' ')
}

/// The character of the decimal digit `d`.
pub open spec fn digit_char(d: nat) -> char
    recommends
        d < 10,
{
    (48 + d) as char
}

/// The decimal numeral of `n`, without sign or leading zeros.
pub open spec fn decimal(n: nat) -> Seq<char>
    decreases n,
{
    if n < 10 {
        seq![digit_char(n)]
    } else {
        decimal(n / 10).push(digit_char(n % 10))
    }
}

/// `String::push` of std: appends one character to the end of the string.
#[verifier::external_body]
pub(crate) fn push_char(s: &mut String, c: char)
    ensures
        final(s)@ == old(s)@.push(c),
{
    s.push(c)
}

/// Appends `n` blanks to `s`.
pub fn push_spaces(s: &mut String, n: usize)
    ensures
        final(s)@ == old(s)@ + spaces(n as nat),
{
    let mut i: usize = 0;
    while i < n
        invariant
            i <= n,
            s@ == old(s)@ + spaces(i as nat),
        decreases n - i,
    {
        push_char(s, ' ');
        i = i + 1;
        assert(s@ =~= old(s)@ + spaces(i as nat));
    }
}

/// Appends the decimal numeral of `n` to `s`.
pub fn push_decimal(s: &mut String, n: usize)
    ensures
        final(s)@ == old(s)@ + decimal(n as nat),
    decreases n,
{
    if n >= 10 {
        push_decimal(s, n / 10);
    }
    let d: u8 = (n % 10) as u8;
    push_char(s, (48u8 + d) as char);
    assert(s@ =~= old(s)@ + decimal(n as nat));
}

/// The decimal numeral of `n` as a string of its own.
pub fn decimal_string(n: usize) -> (s: String)
    ensures
        s@ == decimal(n as nat),
{
    let mut s = String::new();
    push_decimal(&mut s, n);
    assert(s@ =~= decimal(n as nat));
    s
}

/// Index of the first line feed in `s`, or the length of `s` where it holds none.
pub open spec fn first_newline(s: Seq<char>) -> int
    decreases s.len(),
{
    if s.len() == 0 || s[0] == '\n' {
        0
    } else {
        1 + first_newline(s.drop_first())
    }
}

/// `s` without one carriage return at its end, if it ends in one.
pub open spec fn strip_cr(s: Seq<char>) -> Seq<char> {
    if s.len() > 0 && s.last() == '\r' {
        s.drop_last()
    } else {
        s
    }
}

/// The lines of `s`. A line ends at a line feed, or at a carriage return directly
/// followed by one; the terminator is not part of the line. A last line without
/// terminator counts if it is not empty, and keeps a carriage return at its end.
pub open spec fn split_lines(s: Seq<char>) -> Seq<Seq<char>>
    decreases s.len(),
{
    if s.len() == 0 {
        Seq::empty()
    } else {
        let k = first_newline(s);
        if 0 <= k < s.len() {
            seq![strip_cr(s.subrange(0, k))] + split_lines(s.subrange(k + 1, s.len() as int))
        } else {
            seq![s]
        }
    }
}

/// Every line of `lines` behind `pad` blanks and closed by a line feed.
pub open spec fn indent_lines(lines: Seq<Seq<char>>, pad: nat) -> Seq<char>
    decreases lines.len(),
{
    if lines.len() == 0 {
        Seq::empty()
    } else {
        indent_lines(lines.drop_last(), pad) + spaces(pad) + lines.last() + seq!['\n']
    }
}

/// The views of the strings of `v`, in order.
pub open spec fn views(v: Seq<String>) -> Seq<Seq<char>> {
    Seq::new(v.len(), |i: int| v[i]@)
}

/// `first_newline` is the position `k` once nothing before `k` is a line feed and
/// `k` is one, or the end.
pub proof fn lemma_first_newline(s: Seq<char>, k: int)
    requires
        0 <= k <= s.len(),
        forall|j: int| 0 <= j < k ==> s[j] != '\n',
        k < s.len() ==> s[k] == '\n',
    ensures
        first_newline(s) == k,
    decreases k,
{
    if k > 0 {
        let t = s.drop_first();
        assert forall|j: int| 0 <= j < k - 1 implies t[j] != '\n' by {
            assert(t[j] == s[j + 1]);
        }
        lemma_first_newline(t, k - 1);
    }
}

/// Splits `text` into its lines.
pub fn lines_of(text: &str) -> (lines: Vec<String>)
    ensures
        views(lines@) == split_lines(text@),
{
    let mut lines: Vec<String> = Vec::new();
    let mut cur = String::new();
    let mut pending = false;
    let mut open = false;
    let ghost mut start: int = 0;
    let ghost total = text@.len() as int;
    let ghost mut seen: int = 0;
    proof {
        assert(text@.subrange(0, total) =~= text@);
        assert(views(lines@) + split_lines(text@) =~= split_lines(text@));
        assert(cur@ + Seq::<char>::empty() =~= text@.subrange(0, 0));
    }
    for c in it: text.chars()
        invariant
            it.seq() == text@,
            seen == it.index(),
            total == text@.len(),
            0 <= start <= it.index() <= total,
            open == (start < it.index()),
            cur@ + (if pending { seq!['\r'] } else { Seq::<char>::empty() }) == text@.subrange(
                start,
                it.index() as int,
            ),
            forall|j: int| start <= j < it.index() ==> text@[j] != '\n',
            !pending ==> cur@.len() == 0 || cur@.last() != '\r',
            split_lines(text@) == views(lines@) + split_lines(text@.subrange(start, total)),
    {
        let ghost i = it.index() as int;
        let ghost rest = text@.subrange(start, total);
        if c == '\n' {
            proof {
                assert(rest[i - start] == '\n');
                assert forall|j: int| 0 <= j < i - start implies rest[j] != '\n' by {
                    assert(rest[j] == text@[start + j]);
                }
                lemma_first_newline(rest, i - start);
                assert(rest.subrange(0, i - start) =~= text@.subrange(start, i));
                assert(rest.subrange(i - start + 1, rest.len() as int) =~= text@.subrange(
                    i + 1,
                    total,
                ));
                if pending {
                    assert(text@.subrange(start, i).last() == '\r');
                    assert(text@.subrange(start, i).drop_last() =~= cur@);
                } else {
                    assert(text@.subrange(start, i) =~= cur@);
                }
            }
            let ghost before = lines@;
            lines.push(cur);
            cur = String::new();
            pending = false;
            open = false;
            proof {
                assert(views(lines@) =~= views(before) + seq![strip_cr(text@.subrange(start, i))]);
                assert(views(lines@) + split_lines(text@.subrange(i + 1, total)) =~= views(before)
                    + split_lines(rest));
                start = i + 1;
                assert(cur@ + Seq::<char>::empty() =~= text@.subrange(start, i + 1));
            }
        } else {
            let ghost held = cur@ + (if pending { seq!['\r'] } else { Seq::<char>::empty() });
            if pending {
                push_char(&mut cur, '\r');
            }
            assert(cur@ =~= held);
            if c == '\r' {
                pending = true;
            } else {
                push_char(&mut cur, c);
                pending = false;
            }
            open = true;
            proof {
                assert(text@.subrange(start, i + 1) =~= held.push(c));
                assert(cur@ + (if pending { seq!['\r'] } else { Seq::<char>::empty() }) =~= held.push(c));
            }
        }
        proof {
            seen = i + 1;
        }
    }
    let ghost rest = text@.subrange(start, total);
    if open {
        let ghost held = cur@ + (if pending { seq!['\r'] } else { Seq::<char>::empty() });
        if pending {
            push_char(&mut cur, '\r');
        }
        let ghost before = lines@;
        lines.push(cur);
        proof {
            assert(cur@ =~= held);
            assert forall|j: int| 0 <= j < rest.len() implies rest[j] != '\n' by {
                assert(rest[j] == text@[start + j]);
            }
            lemma_first_newline(rest, rest.len() as int);
            assert(views(lines@) =~= views(before) + seq![rest]);
        }
    } else {
        assert(views(lines@) + split_lines(rest) =~= views(lines@));
    }
    lines
}

/// Appends the indentation of nesting level `levels` to `out`: four blanks a level.
pub fn push_indent(out: &mut String, levels: usize)
    ensures
        final(out)@ == old(out)@ + spaces(4 * levels as nat),
{
    let mut i: usize = 0;
    assert(out@ =~= old(out)@ + spaces(0));
    while i < levels
        invariant
            i <= levels,
            out@ == old(out)@ + spaces(4 * i as nat),
        decreases levels - i,
    {
        push_spaces(out, 4);
        i = i + 1;
        assert(out@ =~= old(out)@ + spaces(4 * i as nat));
    }
}

/// Appends every line of `lines` to `out`, indented to nesting level `levels` and
/// closed by a line feed.
pub fn push_indented(out: &mut String, lines: &Vec<String>, levels: usize)
    ensures
        final(out)@ == old(out)@ + indent_lines(views(lines@), 4 * levels as nat),
{
    let ghost pad = 4 * levels as nat;
    let ghost all = views(lines@);
    let mut i: usize = 0;
    assert(all.take(0) =~= Seq::<Seq<char>>::empty());
    assert(out@ =~= old(out)@ + indent_lines(all.take(0), pad));
    while i < lines.len()
        invariant
            i <= lines.len(),
            all == views(lines@),
            pad == 4 * levels as nat,
            out@ == old(out)@ + indent_lines(all.take(i as int), pad),
        decreases lines.len() - i,
    {
        let ghost before = out@;
        push_indent(out, levels);
        out.append(lines[i].as_str());
        push_char(out, '\n');
        proof {
            let next = all.take(i + 1);
            assert(next.drop_last() =~= all.take(i as int));
            assert(next.last() == lines@[i as int]@);
            assert(out@ =~= old(out)@ + indent_lines(next, pad));
        }
        i = i + 1;
    }
    assert(all.take(i as int) =~= all);
}

/// How often the character `c` occurs in `s`.
pub open spec fn count_char(s: Seq<char>, c: char) -> nat
    decreases s.len(),
{
    if s.len() == 0 {
        0
    } else {
        count_char(s.drop_last(), c) + if s.last() == c {
            1nat
        } else {
            0nat
        }
    }
}

/// Whether the character `c` does not occur in `s`.
pub open spec fn free_of(s: Seq<char>, c: char) -> bool {
    forall|i: int| 0 <= i < s.len() ==> s[i] != c
}

/// A character occurs in two texts, one behind the other, as often as in both.
pub proof fn lemma_count_add(a: Seq<char>, b: Seq<char>, c: char)
    ensures
        count_char(a + b, c) == count_char(a, c) + count_char(b, c),
    decreases b.len(),
{
    if b.len() == 0 {
        assert(a + b =~= a);
    } else {
        lemma_count_add(a, b.drop_last(), c);
        assert((a + b).drop_last() =~= a + b.drop_last());
    }
}

/// A character that does not occur counts zero.
pub proof fn lemma_count_free(s: Seq<char>, c: char)
    requires
        free_of(s, c),
    ensures
        count_char(s, c) == 0,
    decreases s.len(),
{
    if s.len() > 0 {
        lemma_count_free(s.drop_last(), c);
    }
}

/// Blanks hold nothing but blanks.
pub proof fn lemma_spaces_free(n: nat, c: char)
    requires
        c != ' ',
    ensures
        free_of(spaces(n), c),
{
}

/// A decimal numeral holds nothing but digits: no brace.
pub proof fn lemma_decimal_free(n: nat)
    ensures
        free_of(decimal(n), '{'),
        free_of(decimal(n), '}'),
        free_of(decimal(n), '\n'),
    decreases n,
{
    if n >= 10 {
        lemma_decimal_free(n / 10);
    }
}

/// The lines of a text hold no character that the text does not hold.
pub proof fn lemma_lines_free(s: Seq<char>, c: char)
    requires
        free_of(s, c),
    ensures
        forall|k: int| 0 <= k < split_lines(s).len() ==> free_of(#[trigger] split_lines(s)[k], c),
    decreases s.len(),
{
    if s.len() > 0 {
        let k = first_newline(s);
        if 0 <= k < s.len() {
            let rest = s.subrange(k + 1, s.len() as int);
            lemma_lines_free(rest, c);
            let head = strip_cr(s.subrange(0, k));
            assert(free_of(head, c));
            assert forall|i: int| 0 <= i < split_lines(s).len() implies free_of(
                #[trigger] split_lines(s)[i],
                c,
            ) by {
                if i > 0 {
                    assert(split_lines(s)[i] == split_lines(rest)[i - 1]);
                }
            }
        }
    }
}

/// Indented lines hold, besides blanks and line feeds, what the lines hold.
pub proof fn lemma_indent_free(lines: Seq<Seq<char>>, pad: nat, c: char)
    requires
        c != ' ',
        c != '\n',
        forall|k: int| 0 <= k < lines.len() ==> free_of(#[trigger] lines[k], c),
    ensures
        free_of(indent_lines(lines, pad), c),
    decreases lines.len(),
{
    if lines.len() > 0 {
        lemma_indent_free(lines.drop_last(), pad, c);
        assert(free_of(lines[lines.len() - 1], c));
    }
}

} // verus!
