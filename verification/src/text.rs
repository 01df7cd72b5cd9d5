//! Text as sequences of characters: the string operations that the formats of
//! this crate are described with, and verified executable counterparts.

use vstd::prelude::*;

verus! {

/// The Unicode `White_Space` property.
pub open spec fn is_white(c: char) -> bool {
    ||| '\u{9}' <= c <= '\u{d}'
    ||| c == ' '
    ||| c == '\u{85}'
    ||| c == '\u{a0}'
    ||| c == '\u{1680}'
    ||| '\u{2000}' <= c <= '\u{200a}'
    ||| '\u{2028}' <= c <= '\u{2029}'
    ||| c == '\u{202f}'
    ||| c == '\u{205f}'
    ||| c == '\u{3000}'
}

/// Whether every character of `s` is white space.
pub open spec fn is_blank(s: Seq<char>) -> bool {
    forall|i: int| 0 <= i < s.len() ==> is_white(#[trigger] s[i])
}

/// `s` without its leading white space.
pub open spec fn trim_start(s: Seq<char>) -> Seq<char>
    decreases s.len(),
{
    if s.len() > 0 && is_white(s[0]) {
        trim_start(s.drop_first())
    } else {
        s
    }
}

/// `s` without its trailing white space.
pub open spec fn trim_end(s: Seq<char>) -> Seq<char>
    decreases s.len(),
{
    if s.len() > 0 && is_white(s.last()) {
        trim_end(s.drop_last())
    } else {
        s
    }
}

/// `s` without leading and trailing white space.
pub open spec fn trimmed(s: Seq<char>) -> Seq<char> {
    trim_end(trim_start(s))
}

/// The pieces of `s` between the occurrences of `sep`: always one more than
/// there are occurrences.
pub open spec fn split(s: Seq<char>, sep: char) -> Seq<Seq<char>>
    decreases s.len(),
{
    if s.len() == 0 {
        seq![Seq::empty()]
    } else {
        let before = split(s.drop_last(), sep);
        if s.last() == sep {
            before.push(Seq::empty())
        } else {
            before.drop_last().push(before.last().push(s.last()))
        }
    }
}

/// The pieces with `sep` between them.
pub open spec fn joined(pieces: Seq<Seq<char>>, sep: Seq<char>) -> Seq<char>
    decreases pieces.len(),
{
    if pieces.len() == 0 {
        Seq::empty()
    } else if pieces.len() == 1 {
        pieces[0]
    } else {
        joined(pieces.drop_last(), sep) + sep + pieces.last()
    }
}

/// What stands before and after the first `sep` in `s`.
pub open spec fn split_first(s: Seq<char>, sep: char) -> Option<(Seq<char>, Seq<char>)>
    decreases s.len(),
{
    if s.len() == 0 {
        None
    } else if s[0] == sep {
        Some((Seq::empty(), s.drop_first()))
    } else {
        match split_first(s.drop_first(), sep) {
            Some((before, after)) => Some((seq![s[0]] + before, after)),
            None => None,
        }
    }
}

/// `s` without one trailing carriage return.
pub open spec fn without_return(s: Seq<char>) -> Seq<char> {
    if s.len() > 0 && s.last() == '\r' {
        s.drop_last()
    } else {
        s
    }
}

/// The lines of `s`. A line ends in a newline, before which one carriage return
/// is dropped too; what follows the last newline is a line unless it is empty.
pub open spec fn lines_of(s: Seq<char>) -> Seq<Seq<char>> {
    let pieces = split(s, '\n');
    let ended = pieces.drop_last().map_values(|p: Seq<char>| without_return(p));
    if pieces.last().len() == 0 {
        ended
    } else {
        ended.push(pieces.last())
    }
}

/// Whether `part` stands in `s` from index `at` on.
pub open spec fn occurs_at(s: Seq<char>, part: Seq<char>, at: int) -> bool {
    0 <= at <= s.len() - part.len() && s.subrange(at, at + part.len()) == part
}

/// Whether `part` stands anywhere in `s`.
pub open spec fn occurs_in(s: Seq<char>, part: Seq<char>) -> bool {
    exists|at: int| occurs_at(s, part, at)
}

/// The lexicographic order of texts by their characters' code points.
pub open spec fn precedes(a: Seq<char>, b: Seq<char>) -> bool
    decreases a.len(),
{
    if b.len() == 0 {
        false
    } else if a.len() == 0 {
        true
    } else if a[0] != b[0] {
        a[0] < b[0]
    } else {
        precedes(a.drop_first(), b.drop_first())
    }
}

/// The characters of `s`.
pub fn chars_of(s: &str) -> (chars: Vec<char>)
    ensures
        chars@ == s@,
{
    let mut chars: Vec<char> = Vec::new();
    for c in it: s.chars()
        invariant
            it.seq() == s@,
            chars@ == s@.take(it.index() as int),
    {
        chars.push(c);
    }
    chars
}

/// Whether a character is white space.
pub fn is_white_space(c: char) -> (white: bool)
    ensures
        white == is_white(c),
{
    ('\u{9}' <= c && c <= '\u{d}') || c == ' ' || c == '\u{85}' || c == '\u{a0}' || c == '\u{1680}'
        || ('\u{2000}' <= c && c <= '\u{200a}') || ('\u{2028}' <= c && c <= '\u{2029}') || c
        == '\u{202f}' || c == '\u{205f}' || c == '\u{3000}'
}

/// Whether two texts are the same.
pub fn same_text(a: &str, b: &str) -> (same: bool)
    ensures
        same == (a@ == b@),
{
    let x = chars_of(a);
    let y = chars_of(b);
    if x.len() != y.len() {
        return false;
    }
    let mut i: usize = 0;
    while i < x.len()
        invariant
            i <= x.len() == y.len(),
            x@ == a@,
            y@ == b@,
            forall|j: int| 0 <= j < i ==> x@[j] == y@[j],
        decreases x.len() - i,
    {
        if x[i] != y[i] {
            return false;
        }
        i += 1;
    }
    assert(x@ =~= y@);
    true
}

/// Whether a text holds nothing but white space.
pub fn blank(s: &str) -> (b: bool)
    ensures
        b == is_blank(s@),
{
    let chars = chars_of(s);
    let mut i: usize = 0;
    while i < chars.len()
        invariant
            i <= chars.len(),
            chars@ == s@,
            forall|j: int| 0 <= j < i ==> is_white(#[trigger] s@[j]),
        decreases chars.len() - i,
    {
        if !is_white_space(chars[i]) {
            assert(!is_white(s@[i as int]));
            return false;
        }
        i += 1;
    }
    true
}

/// A text without leading and trailing white space.
pub fn trim(s: &str) -> (t: &str)
    ensures
        t@ == trimmed(s@),
{
    let chars = chars_of(s);
    let mut from: usize = 0;
    assert(s@.skip(0) =~= s@);
    while from < chars.len() && is_white_space(chars[from])
        invariant
            from <= chars.len(),
            chars@ == s@,
            trim_start(s@) == trim_start(s@.skip(from as int)),
        decreases chars.len() - from,
    {
        assert(s@.skip(from as int).drop_first() =~= s@.skip(from + 1));
        from += 1;
    }
    let ghost start = s@.skip(from as int);
    assert(trim_start(s@) == start);
    let mut to: usize = chars.len();
    assert(s@.subrange(from as int, to as int) =~= start);
    while from < to && is_white_space(chars[to - 1])
        invariant
            from <= to <= chars.len(),
            chars@ == s@,
            trim_end(start) == trim_end(s@.subrange(from as int, to as int)),
        decreases to,
    {
        assert(s@.subrange(from as int, to as int).drop_last() =~= s@.subrange(
            from as int,
            to - 1,
        ));
        to -= 1;
    }
    s.substring_char(from, to)
}

/// The pieces of a text between the occurrences of a separator.
pub fn split_text(s: &str, sep: char) -> (pieces: Vec<&str>)
    ensures
        pieces.deep_view() == split(s@, sep),
{
    let chars = chars_of(s);
    let mut pieces: Vec<&str> = Vec::new();
    let mut from: usize = 0;
    let mut i: usize = 0;
    assert(split(s@.take(0), sep) =~= pieces.deep_view().push(s@.subrange(0, 0))) by {
        assert(s@.take(0) =~= Seq::empty());
        assert(s@.subrange(0, 0) =~= Seq::empty());
    }
    while i < chars.len()
        invariant
            from <= i <= chars.len(),
            chars@ == s@,
            split(s@.take(i as int), sep) == pieces.deep_view().push(
                s@.subrange(from as int, i as int),
            ),
        decreases chars.len() - i,
    {
        let ghost before = pieces.deep_view();
        let ghost last = s@.subrange(from as int, i as int);
        assert(s@.take(i + 1).drop_last() =~= s@.take(i as int));
        assert(s@.take(i + 1).last() == s@[i as int]);
        assert(before.push(last).drop_last() =~= before);
        if chars[i] == sep {
            let piece = s.substring_char(from, i);
            pieces.push(piece);
            from = i + 1;
            assert(pieces.deep_view() =~= before.push(last));
            assert(s@.subrange(from as int, i + 1) =~= Seq::empty());
        } else {
            assert(s@.subrange(from as int, i + 1) =~= last.push(s@[i as int]));
        }
        i += 1;
    }
    let ghost before = pieces.deep_view();
    let piece = s.substring_char(from, i);
    pieces.push(piece);
    assert(pieces.deep_view() =~= before.push(piece@));
    assert(s@.take(i as int) =~= s@);
    pieces
}

/// What stands before and after the first occurrence of a separator.
pub fn split_once(s: &str, sep: char) -> (parts: Option<(&str, &str)>)
    ensures
        parts.deep_view() == split_first(s@, sep),
{
    let chars = chars_of(s);
    let mut i: usize = 0;
    assert(s@.skip(0) =~= s@);
    while i < chars.len()
        invariant
            i <= chars.len(),
            chars@ == s@,
            split_first(s@, sep) == (match split_first(s@.skip(i as int), sep) {
                Some((before, after)) => Some((s@.take(i as int) + before, after)),
                None => None,
            }),
        decreases chars.len() - i,
    {
        let ghost rest = s@.skip(i as int);
        assert(rest.drop_first() =~= s@.skip(i + 1));
        if chars[i] == sep {
            assert(s@.take(i as int) + Seq::<char>::empty() =~= s@.subrange(0, i as int));
            assert(s@.skip(i + 1) =~= s@.subrange(i + 1, s@.len() as int));
            return Some((s.substring_char(0, i), s.substring_char(i + 1, chars.len())));
        }
        proof {
            if let Some((before, after)) = split_first(s@.skip(i + 1), sep) {
                assert(s@.take(i as int) + (seq![rest[0]] + before) =~= s@.take(i + 1) + before);
            }
        }
        i += 1;
    }
    None
}

/// The lines of a text.
pub fn lines(s: &str) -> (lines: Vec<&str>)
    ensures
        lines.deep_view() == lines_of(s@),
{
    let pieces = split_text(s, '\n');
    let ghost all = split(s@, '\n');
    proof {
        lemma_split_nonempty(s@, '\n');
    }
    let mut lines: Vec<&str> = Vec::new();
    let mut i: usize = 0;
    while i < pieces.len() - 1
        invariant
            i <= pieces.len() - 1,
            pieces.deep_view() == all,
            lines.deep_view() =~= all.take(i as int).map_values(|p: Seq<char>| without_return(p)),
        decreases pieces.len() - i,
    {
        let ghost before = lines.deep_view();
        let piece = pieces[i];
        assert(piece@ == all[i as int]);
        let chars = chars_of(piece);
        let line = if chars.len() > 0 && chars[chars.len() - 1] == '\r' {
            assert(piece@.subrange(0, chars.len() - 1) =~= piece@.drop_last());
            piece.substring_char(0, chars.len() - 1)
        } else {
            piece
        };
        lines.push(line);
        assert(lines.deep_view() =~= before.push(line@));
        i += 1;
    }
    assert(all.take(i as int) =~= all.drop_last());
    let last = pieces[i];
    assert(last@ == all[i as int]);
    if !last.is_empty() {
        let ghost before = lines.deep_view();
        lines.push(last);
        assert(lines.deep_view() =~= before.push(last@));
    }
    lines
}

/// Whether `part` stands anywhere in `s`.
pub fn contains(s: &str, part: &str) -> (found: bool)
    ensures
        found == occurs_in(s@, part@),
{
    let x = chars_of(s);
    let y = chars_of(part);
    if y.len() > x.len() {
        return false;
    }
    let mut at: usize = 0;
    while at <= x.len() - y.len()
        invariant
            at <= x.len() - y.len() + 1,
            y.len() <= x.len(),
            x@ == s@,
            y@ == part@,
            forall|k: int| 0 <= k < at ==> !occurs_at(s@, part@, k),
        decreases x.len() - at,
    {
        let mut n: usize = 0;
        while n < y.len() && x[at + n] == y[n]
            invariant
                n <= y.len(),
                at <= x.len() - y.len(),
                y.len() <= x.len(),
                forall|k: int| 0 <= k < n ==> x@[at + k] == y@[k],
            decreases y.len() - n,
        {
            n += 1;
        }
        if n == y.len() {
            assert(s@.subrange(at as int, at + y.len()) =~= part@);
            assert(occurs_at(s@, part@, at as int));
            return true;
        }
        assert(!occurs_at(s@, part@, at as int)) by {
            assert(s@[at + n] != part@[n as int]);
            assert(s@.subrange(at as int, at + y.len())[n as int] == s@[at + n]);
        }
        if at == x.len() - y.len() {
            return false;
        }
        at += 1;
    }
    false
}

/// Whether `a` stands before `b` in the lexicographic order.
pub fn before(a: &str, b: &str) -> (less: bool)
    ensures
        less == precedes(a@, b@),
{
    let x = chars_of(a);
    let y = chars_of(b);
    let mut i: usize = 0;
    assert(a@.skip(0) =~= a@ && b@.skip(0) =~= b@);
    while i < x.len() && i < y.len()
        invariant
            i <= x.len(),
            i <= y.len(),
            x@ == a@,
            y@ == b@,
            precedes(a@, b@) == precedes(a@.skip(i as int), b@.skip(i as int)),
        decreases x.len() - i,
    {
        if x[i] != y[i] {
            return x[i] < y[i];
        }
        assert(a@.skip(i as int).drop_first() =~= a@.skip(i + 1));
        assert(b@.skip(i as int).drop_first() =~= b@.skip(i + 1));
        i += 1;
    }
    i < y.len()
}

/// A split text has at least one piece.
pub proof fn lemma_split_nonempty(s: Seq<char>, sep: char)
    ensures
        split(s, sep).len() > 0,
    decreases s.len(),
{
    if s.len() > 0 {
        lemma_split_nonempty(s.drop_last(), sep);
    }
}

/// A separator parts the pieces before it from those after it.
pub proof fn lemma_split_at(a: Seq<char>, sep: char, b: Seq<char>)
    ensures
        split(a + seq![sep] + b, sep) == split(a, sep) + split(b, sep),
    decreases b.len(),
{
    let s = a + seq![sep] + b;
    assert(s.last() == if b.len() == 0 {
        sep
    } else {
        b.last()
    });
    if b.len() == 0 {
        assert(s.drop_last() =~= a);
        assert(split(a, sep).push(Seq::empty()) =~= split(a, sep) + seq![Seq::<char>::empty()]);
    } else {
        let before = split(b.drop_last(), sep);
        assert(s.drop_last() =~= a + seq![sep] + b.drop_last());
        lemma_split_at(a, sep, b.drop_last());
        lemma_split_nonempty(b.drop_last(), sep);
        assert((split(a, sep) + before).drop_last() =~= split(a, sep) + before.drop_last());
        assert(split(s, sep) =~= split(a, sep) + split(b, sep));
    }
}

/// The pieces of a split text make it up with the separator between them, and none of
/// them holds the separator.
pub proof fn law_split_joins(s: Seq<char>, sep: char)
    ensures
        joined(split(s, sep), seq![sep]) == s,
        forall|i: int| 0 <= i < split(s, sep).len() ==> !(#[trigger] split(s, sep)[i]).contains(sep),
    decreases s.len(),
{
    let pieces = split(s, sep);
    if s.len() == 0 {
        assert(pieces[0] =~= s);
    } else {
        let before = split(s.drop_last(), sep);
        law_split_joins(s.drop_last(), sep);
        lemma_split_nonempty(s.drop_last(), sep);
        let start = before.drop_last();
        let c = s.last();
        assert(s =~= s.drop_last().push(c));
        if c == sep {
            assert(pieces.drop_last() =~= before);
            assert(joined(before, seq![sep]) + seq![sep] + Seq::<char>::empty() =~= s);
        } else {
            assert(pieces.drop_last() =~= start);
            if before.len() == 1 {
                assert(pieces[0] =~= s);
            } else {
                assert(joined(start, seq![sep]) + seq![sep] + before.last().push(c) =~= (joined(
                    start,
                    seq![sep],
                ) + seq![sep] + before.last()).push(c));
            }
            assert(!before[before.len() - 1].contains(sep));
            assert(!before.last().push(c).contains(sep)) by {
                if before.last().push(c).contains(sep) {
                    let k = choose|k: int|
                        0 <= k < before.last().push(c).len() && before.last().push(c)[k] == sep;
                    assert(k < before.last().len() ==> before.last()[k] == sep);
                }
            }
        }
        assert forall|i: int| 0 <= i < pieces.len() implies !(#[trigger] pieces[i]).contains(
            sep,
        ) by {
            if i < pieces.len() - 1 {
                assert(pieces[i] == before[i]);
            }
        }
    }
}

/// A text is parted at the first separator, and at none only where it holds none.
pub proof fn law_split_first_parts(s: Seq<char>, sep: char)
    ensures
        match split_first(s, sep) {
            Some((before, after)) => s == before + seq![sep] + after && !before.contains(sep),
            None => !s.contains(sep),
        },
    decreases s.len(),
{
    if s.len() > 0 {
        let rest = s.drop_first();
        law_split_first_parts(rest, sep);
        if s[0] == sep {
            assert(s =~= Seq::<char>::empty() + seq![sep] + rest);
        } else {
            assert(s =~= seq![s[0]] + rest);
            if let Some((before, after)) = split_first(rest, sep) {
                let longer = seq![s[0]] + before;
                assert(s =~= longer + seq![sep] + after);
                if longer.contains(sep) {
                    let k = choose|k: int| 0 <= k < longer.len() && longer[k] == sep;
                    assert(before[k - 1] == sep);
                }
            } else if s.contains(sep) {
                let k = choose|k: int| 0 <= k < s.len() && s[k] == sep;
                assert(rest[k - 1] == sep);
            }
        }
    }
}

/// What stands before a separator is found where it holds none itself.
pub proof fn lemma_split_first_at(before: Seq<char>, sep: char, after: Seq<char>)
    requires
        !before.contains(sep),
    ensures
        split_first(before + seq![sep] + after, sep) == Some((before, after)),
    decreases before.len(),
{
    let s = before + seq![sep] + after;
    if before.len() == 0 {
        assert(s.drop_first() =~= after);
        assert(before =~= Seq::empty());
    } else {
        let rest = before.drop_first();
        assert(before[0] != sep);
        assert(!rest.contains(sep)) by {
            if rest.contains(sep) {
                let k = choose|k: int| 0 <= k < rest.len() && rest[k] == sep;
                assert(before[k + 1] == sep);
            }
        }
        lemma_split_first_at(rest, sep, after);
        assert(s.drop_first() =~= rest + seq![sep] + after);
        assert(seq![s[0]] + rest =~= before);
    }
}

/// A trimmed text is what is left of a text without white space at both ends.
pub proof fn law_trimmed_is_the_middle(s: Seq<char>)
    ensures
        exists|i: int, j: int|
            {
                &&& 0 <= i <= j <= s.len()
                &&& trimmed(s) == #[trigger] s.subrange(i, j)
                &&& is_blank(s.take(i))
                &&& is_blank(s.skip(j))
            },
        trimmed(s).len() > 0 ==> !is_white(trimmed(s)[0]) && !is_white(trimmed(s).last()),
{
    let i = lemma_trim_start(s);
    let start = trim_start(s);
    let n = lemma_trim_end(start);
    let j = i + n;
    assert(trimmed(s) =~= s.subrange(i, j));
    assert(is_blank(s.skip(j))) by {
        assert(s.skip(j) =~= start.skip(n));
    }
    if trimmed(s).len() > 0 {
        assert(trimmed(s)[0] == start[0]);
    }
}

proof fn lemma_trim_start(s: Seq<char>) -> (i: int)
    ensures
        0 <= i <= s.len(),
        trim_start(s) == s.skip(i),
        is_blank(s.take(i)),
        trim_start(s).len() > 0 ==> !is_white(trim_start(s)[0]),
    decreases s.len(),
{
    if s.len() > 0 && is_white(s[0]) {
        let i = lemma_trim_start(s.drop_first());
        assert(s.skip(i + 1) =~= s.drop_first().skip(i));
        assert forall|k: int| 0 <= k < i + 1 implies is_white(#[trigger] s.take(i + 1)[k]) by {
            if k > 0 {
                assert(s.drop_first().take(i)[k - 1] == s[k]);
            }
        }
        i + 1
    } else {
        assert(s.skip(0) =~= s);
        0
    }
}

proof fn lemma_trim_end(s: Seq<char>) -> (n: int)
    ensures
        0 <= n <= s.len(),
        trim_end(s) == s.take(n),
        is_blank(s.skip(n)),
        trim_end(s).len() > 0 ==> !is_white(trim_end(s).last()),
    decreases s.len(),
{
    if s.len() > 0 && is_white(s.last()) {
        let n = lemma_trim_end(s.drop_last());
        assert(s.take(n) =~= s.drop_last().take(n));
        assert forall|k: int| 0 <= k < s.len() - n implies is_white(#[trigger] s.skip(n)[k]) by {
            if k < s.len() - n - 1 {
                assert(s.drop_last().skip(n)[k] == s[n + k]);
            }
        }
        n
    } else {
        assert(s.take(s.len() as int) =~= s);
        s.len() as int
    }
}

/// White space before a text is trimmed away.
pub proof fn lemma_trimmed_after_blank(space: Seq<char>, s: Seq<char>)
    requires
        is_blank(space),
    ensures
        trimmed(space + s) == trimmed(s),
    decreases space.len(),
{
    if space.len() == 0 {
        assert(space + s =~= s);
    } else {
        assert((space + s)[0] == space[0]);
        assert((space + s).drop_first() =~= space.drop_first() + s);
        assert forall|k: int| 0 <= k < space.len() - 1 implies is_white(
            #[trigger] space.drop_first()[k],
        ) by {
            assert(space[k + 1] == space.drop_first()[k]);
        }
        lemma_trimmed_after_blank(space.drop_first(), s);
    }
}

/// No text precedes itself.
pub proof fn lemma_precedes_irreflexive(a: Seq<char>)
    ensures
        !precedes(a, a),
    decreases a.len(),
{
    if a.len() > 0 {
        lemma_precedes_irreflexive(a.drop_first());
    }
}

/// The order is transitive.
pub proof fn lemma_precedes_transitive(a: Seq<char>, b: Seq<char>, c: Seq<char>)
    requires
        precedes(a, b),
        precedes(b, c),
    ensures
        precedes(a, c),
    decreases a.len(),
{
    if a.len() > 0 && b.len() > 0 && c.len() > 0 && a[0] == b[0] && b[0] == c[0] {
        lemma_precedes_transitive(a.drop_first(), b.drop_first(), c.drop_first());
    }
}

/// Of two different texts one precedes the other.
pub proof fn lemma_precedes_total(a: Seq<char>, b: Seq<char>)
    ensures
        a == b || precedes(a, b) || precedes(b, a),
    decreases a.len(),
{
    if a.len() > 0 && b.len() > 0 && a[0] == b[0] {
        lemma_precedes_total(a.drop_first(), b.drop_first());
        if a.drop_first() == b.drop_first() {
            assert(a =~= seq![a[0]] + a.drop_first());
            assert(b =~= seq![b[0]] + b.drop_first());
        }
    } else if a.len() == 0 && b.len() == 0 {
        assert(a =~= b);
    }
}

/// What two texts begin with in common has no part in their order.
pub proof fn lemma_precedes_after(start: Seq<char>, a: Seq<char>, b: Seq<char>)
    ensures
        precedes(start + a, start + b) == precedes(a, b),
    decreases start.len(),
{
    if start.len() == 0 {
        assert(start + a =~= a);
        assert(start + b =~= b);
    } else {
        assert((start + a).drop_first() =~= start.drop_first() + a);
        assert((start + b).drop_first() =~= start.drop_first() + b);
        lemma_precedes_after(start.drop_first(), a, b);
    }
}

/// Where two texts first differ, the one with the smaller code point precedes the other,
/// and a text precedes every longer one that begins with it.
pub proof fn law_order_is_by_code_point(
    start: Seq<char>,
    c: char,
    a: Seq<char>,
    d: char,
    b: Seq<char>,
)
    requires
        c < d,
    ensures
        precedes(start + seq![c] + a, start + seq![d] + b),
        !precedes(start + seq![d] + b, start + seq![c] + a),
        precedes(start, start + seq![c] + a),
        !precedes(start + seq![c] + a, start),
{
    let x = seq![c] + a;
    let y = seq![d] + b;
    assert(start + seq![c] + a =~= start + x);
    assert(start + seq![d] + b =~= start + y);
    lemma_precedes_after(start, x, y);
    lemma_precedes_after(start, y, x);
    lemma_precedes_after(start, Seq::empty(), x);
    lemma_precedes_after(start, x, Seq::empty());
    assert(start + Seq::<char>::empty() =~= start);
}

/// A nonempty run of the ten digits.
pub open spec fn is_number(s: Seq<char>) -> bool {
    s.len() > 0 && forall|i: int| 0 <= i < s.len() ==> '0' <= #[trigger] s[i] <= '9'
}

/// The number that a run of digits stands for.
pub open spec fn number(s: Seq<char>) -> int
    decreases s.len(),
{
    if s.len() == 0 {
        0
    } else {
        10 * number(s.drop_last()) + (s.last() as int - '0' as int)
    }
}

/// Of two texts with a common beginning and numbers of the same length behind it, the one
/// with the smaller number precedes the other.
pub proof fn law_smaller_number_precedes(start: Seq<char>, a: Seq<char>, b: Seq<char>)
    requires
        is_number(a),
        is_number(b),
        a.len() == b.len(),
        number(a) < number(b),
    ensures
        precedes(start + a, start + b),
        !precedes(start + b, start + a),
{
    lemma_number_order(a, b);
    lemma_precedes_after(start, a, b);
    lemma_precedes_after(start, b, a);
    if precedes(b, a) {
        lemma_precedes_transitive(a, b, a);
        lemma_precedes_irreflexive(a);
    }
}

proof fn lemma_number_order(a: Seq<char>, b: Seq<char>)
    requires
        a.len() == b.len(),
        forall|i: int| 0 <= i < a.len() ==> '0' <= #[trigger] a[i] <= '9',
        forall|i: int| 0 <= i < b.len() ==> '0' <= #[trigger] b[i] <= '9',
        number(a) <= number(b),
    ensures
        a == b || precedes(a, b),
        number(a) == number(b) ==> a == b,
    decreases a.len(),
{
    if a.len() == 0 {
        assert(a =~= b);
    } else {
        let x = a.drop_last();
        let y = b.drop_last();
        assert('0' <= a[a.len() - 1] <= '9' && '0' <= b[b.len() - 1] <= '9');
        assert forall|i: int| 0 <= i < x.len() implies '0' <= #[trigger] x[i] <= '9' by {
            assert(x[i] == a[i]);
        }
        assert forall|i: int| 0 <= i < y.len() implies '0' <= #[trigger] y[i] <= '9' by {
            assert(y[i] == b[i]);
        }
        assert(number(x) <= number(y));
        lemma_number_order(x, y);
        assert(a =~= x + seq![a.last()] + Seq::<char>::empty());
        assert(b =~= y + seq![b.last()] + Seq::<char>::empty());
        if x == y {
            if a.last() != b.last() {
                law_order_is_by_code_point(x, a.last(), Seq::empty(), b.last(), Seq::empty());
            }
        } else {
            lemma_precedes_longer(x, seq![a.last()], y, seq![b.last()]);
            assert(a =~= x + seq![a.last()]);
            assert(b =~= y + seq![b.last()]);
        }
    }
}

/// What follows texts of the same length that differ has no part in their order.
proof fn lemma_precedes_longer(x: Seq<char>, a: Seq<char>, y: Seq<char>, b: Seq<char>)
    requires
        x.len() == y.len(),
        precedes(x, y),
    ensures
        precedes(x + a, y + b),
    decreases x.len(),
{
    assert((x + a)[0] == x[0] && (y + b)[0] == y[0]);
    if x[0] == y[0] {
        assert((x + a).drop_first() =~= x.drop_first() + a);
        assert((y + b).drop_first() =~= y.drop_first() + b);
        lemma_precedes_longer(x.drop_first(), a, y.drop_first(), b);
    }
}

/// A text of lines, each with its end: a newline, or a carriage return and a newline.
pub open spec fn ended(lines: Seq<Seq<char>>, crs: Seq<bool>) -> Seq<char>
    decreases lines.len(),
{
    if lines.len() == 0 {
        Seq::empty()
    } else {
        ended(lines.drop_last(), crs) + lines.last() + if crs[lines.len() - 1] {
            seq!['\r', '\n']
        } else {
            seq!['\n']
        }
    }
}

/// Whether texts can be told apart as lines: none holds a newline, and none that ends in
/// a newline alone ends in a carriage return.
pub open spec fn are_lines(lines: Seq<Seq<char>>, crs: Seq<bool>) -> bool {
    &&& crs.len() == lines.len()
    &&& forall|i: int|
        0 <= i < lines.len() ==> {
            &&& !(#[trigger] lines[i]).contains('\n')
            &&& lines[i].len() > 0 && lines[i].last() == '\r' ==> crs[i]
        }
}

/// Lines are read back, however each of them ends, and so is what follows the last end.
pub proof fn law_lines_are_read_back(
    lines: Seq<Seq<char>>,
    crs: Seq<bool>,
    rest: Seq<char>,
)
    requires
        are_lines(lines, crs),
        !rest.contains('\n'),
    ensures
        lines_of(ended(lines, crs) + rest) == if rest.len() == 0 {
            lines
        } else {
            lines.push(rest)
        },
{
    lemma_split_ended(lines, crs, lines.len() as int);
    assert(lines.take(lines.len() as int) =~= lines);
    let pieces = split(ended(lines, crs), '\n');
    lemma_split_append(ended(lines, crs), rest, '\n');
    let all = split(ended(lines, crs) + rest, '\n');
    assert(all.last() =~= rest);
    assert(all.drop_last() =~= pieces.drop_last());
    let read = all.drop_last().map_values(|p: Seq<char>| without_return(p));
    assert forall|i: int| 0 <= i < lines.len() implies #[trigger] read[i] == lines[i] by {
        assert(pieces[i] == with_cr(lines[i], crs[i]));
        assert(!lines[i].contains('\n'));
        if crs[i] {
            assert(lines[i].push('\r').drop_last() =~= lines[i]);
        }
    }
    assert(read =~= lines);
}

spec fn with_cr(line: Seq<char>, has_return: bool) -> Seq<char> {
    if has_return {
        line.push('\r')
    } else {
        line
    }
}

proof fn lemma_split_ended(lines: Seq<Seq<char>>, crs: Seq<bool>, n: int)
    requires
        are_lines(lines, crs),
        0 <= n <= lines.len(),
    ensures
        ({
            let pieces = split(ended(lines.take(n), crs), '\n');
            &&& pieces.len() == n + 1
            &&& pieces[n].len() == 0
            &&& forall|i: int| 0 <= i < n ==> #[trigger] pieces[i] == with_cr(lines[i], crs[i])
        }),
    decreases n,
{
    if n > 0 {
        let before = ended(lines.take(n - 1), crs);
        let line = with_cr(lines[n - 1], crs[n - 1]);
        lemma_split_ended(lines, crs, n - 1);
        assert(lines.take(n).drop_last() =~= lines.take(n - 1));
        assert(ended(lines.take(n), crs) =~= (before + line).push('\n'));
        assert(!lines[n - 1].contains('\n'));
        assert(!line.contains('\n')) by {
            if line.contains('\n') {
                let k = choose|k: int| 0 <= k < line.len() && line[k] == '\n';
                assert(lines[n - 1][k] == '\n');
            }
        }
        lemma_split_append(before, line, '\n');
        let text = (before + line).push('\n');
        assert(text.drop_last() =~= before + line);
        let pieces = split(before, '\n');
        assert(pieces.last() + line =~= line);
        let all = split(text, '\n');
        assert forall|i: int| 0 <= i < n implies #[trigger] all[i] == with_cr(
            lines[i],
            crs[i],
        ) by {
            if i < n - 1 {
                assert(all[i] == pieces[i]);
            }
        }
    }
}

/// What holds no separator goes to the last piece.
pub proof fn lemma_split_append(s: Seq<char>, more: Seq<char>, sep: char)
    requires
        !more.contains(sep),
    ensures
        split(s, sep).len() > 0,
        split(s + more, sep) == split(s, sep).drop_last().push(split(s, sep).last() + more),
    decreases more.len(),
{
    lemma_split_nonempty(s, sep);
    let pieces = split(s, sep);
    if more.len() == 0 {
        assert(s + more =~= s);
        assert(pieces.last() + more =~= pieces.last());
        assert(pieces.drop_last().push(pieces.last()) =~= pieces);
    } else {
        let fewer = more.drop_last();
        assert(!fewer.contains(sep)) by {
            if fewer.contains(sep) {
                let k = choose|k: int| 0 <= k < fewer.len() && fewer[k] == sep;
                assert(more[k] == sep);
            }
        }
        lemma_split_append(s, fewer, sep);
        assert((s + more).drop_last() =~= s + fewer);
        assert((s + more).last() == more.last());
        assert(more[more.len() - 1] != sep);
        let last = pieces.last() + fewer;
        assert(pieces.drop_last().push(last).drop_last() =~= pieces.drop_last());
        assert(last.push(more.last()) =~= pieces.last() + more);
    }
}

/// Whether a text is made of the given lines: each ends in a newline, or in a carriage
/// return and a newline, but for the last one, which may have no end.
pub open spec fn has_lines(text: Seq<char>, lines: Seq<Seq<char>>) -> bool {
    exists|whole: Seq<Seq<char>>, crs: Seq<bool>, rest: Seq<char>|
        {
            &&& are_lines(whole, crs)
            &&& !rest.contains('\n')
            &&& text == #[trigger] (ended(whole, crs) + rest)
            &&& lines == if rest.len() == 0 {
                whole
            } else {
                whole.push(rest)
            }
        }
}

/// A text is read as the lines that it is made of.
pub proof fn law_text_is_read_as_its_lines(text: Seq<char>, lines: Seq<Seq<char>>)
    requires
        has_lines(text, lines),
    ensures
        lines_of(text) == lines,
{
    let (whole, crs, rest) = choose|whole: Seq<Seq<char>>, crs: Seq<bool>, rest: Seq<char>|
        {
            &&& are_lines(whole, crs)
            &&& !rest.contains('\n')
            &&& text == #[trigger] (ended(whole, crs) + rest)
            &&& lines == if rest.len() == 0 {
                whole
            } else {
                whole.push(rest)
            }
        };
    law_lines_are_read_back(whole, crs, rest);
}

/// Every text is made of lines: those that it is read as.
pub proof fn law_every_text_has_its_lines(text: Seq<char>)
    ensures
        has_lines(text, lines_of(text)),
{
    let pieces = split(text, '\n');
    let n = pieces.len() - 1;
    lemma_split_nonempty(text, '\n');
    law_split_joins(text, '\n');
    let whole = pieces.drop_last().map_values(|p: Seq<char>| without_return(p));
    let crs = Seq::new(n as nat, |i: int| pieces[i].len() > 0 && pieces[i].last() == '\r');
    let rest = pieces[n];
    assert(are_lines(whole, crs)) by {
        assert forall|i: int| 0 <= i < whole.len() implies {
            &&& !(#[trigger] whole[i]).contains('\n')
            &&& whole[i].len() > 0 && whole[i].last() == '\r' ==> crs[i]
        } by {
            assert(!pieces[i].contains('\n'));
            assert(whole[i] == without_return(pieces[i]));
            if whole[i].contains('\n') {
                let k = choose|k: int| 0 <= k < whole[i].len() && whole[i][k] == '\n';
                assert(pieces[i][k] == '\n');
            }
        }
    }
    assert forall|i: int| 0 <= i < whole.len() implies #[trigger] pieces[i] == with_cr(
        whole[i],
        crs[i],
    ) by {
        assert(whole[i] == without_return(pieces[i]));
        if crs[i] {
            assert(pieces[i].drop_last().push('\r') =~= pieces[i]);
        }
    }
    lemma_ended_joins(pieces, whole, crs, n);
    assert(whole.take(n) =~= whole);
    assert(pieces.take(n + 1) =~= pieces);
    assert(text == ended(whole, crs) + rest);
    assert(!rest.contains('\n'));
}

proof fn lemma_ended_joins(
    pieces: Seq<Seq<char>>,
    whole: Seq<Seq<char>>,
    crs: Seq<bool>,
    n: int,
)
    requires
        0 <= n < pieces.len(),
        whole.len() == pieces.len() - 1,
        forall|i: int|
            0 <= i < whole.len() ==> #[trigger] pieces[i] == with_cr(whole[i], crs[i]),
    ensures
        ended(whole.take(n), crs) + pieces[n] == joined(pieces.take(n + 1), seq!['\n']),
    decreases n,
{
    let some = pieces.take(n + 1);
    assert(some.last() == pieces[n]);
    if n == 0 {
        assert(whole.take(0) =~= Seq::empty());
        assert(ended(whole.take(0), crs) + pieces[0] =~= pieces[0]);
    } else {
        lemma_ended_joins(pieces, whole, crs, n - 1);
        assert(whole.take(n).drop_last() =~= whole.take(n - 1));
        assert(some.drop_last() =~= pieces.take(n));
        assert(pieces[n - 1] == with_cr(whole[n - 1], crs[n - 1]));
        assert(ended(whole.take(n), crs) =~= ended(whole.take(n - 1), crs) + pieces[n - 1]
            + seq!['\n']);
    }
}

/// A part stands in a text just where the text is something, the part, and something.
pub proof fn law_occurrence_parts_the_text(s: Seq<char>, part: Seq<char>)
    ensures
        occurs_in(s, part) <==> exists|before: Seq<char>, after: Seq<char>|
            s == #[trigger] (before + part + after),
{
    if occurs_in(s, part) {
        let at = choose|at: int| occurs_at(s, part, at);
        assert(s =~= s.take(at) + part + s.skip(at + part.len()));
    }
    if exists|before: Seq<char>, after: Seq<char>| s == #[trigger] (before + part + after) {
        let (before, after) = choose|before: Seq<char>, after: Seq<char>|
            s == #[trigger] (before + part + after);
        let at = before.len() as int;
        assert(s.subrange(at, at + part.len()) =~= part);
        assert(occurs_at(s, part, at));
    }
}

/// A text is blank where it is empty, and where its last character is white space and what
/// stands before that is blank; it is blank just where nothing is left of it when trimmed.
pub proof fn law_blank_is_nothing_but_white_space(s: Seq<char>, c: char)
    ensures
        is_blank(Seq::empty()),
        is_blank(s.push(c)) <==> is_blank(s) && is_white(c),
        is_blank(s) <==> trimmed(s).len() == 0,
{
    let t = s.push(c);
    if is_blank(t) {
        assert forall|i: int| 0 <= i < s.len() implies is_white(#[trigger] s[i]) by {
            assert(t[i] == s[i]);
        }
        assert(t[s.len() as int] == c);
    }
    law_trimmed_is_the_middle(s);
    let (i, j) = choose|i: int, j: int|
        {
            &&& 0 <= i <= j <= s.len()
            &&& trimmed(s) == #[trigger] s.subrange(i, j)
            &&& is_blank(s.take(i))
            &&& is_blank(s.skip(j))
        };
    if trimmed(s).len() == 0 {
        assert forall|k: int| 0 <= k < s.len() implies is_white(#[trigger] s[k]) by {
            if k < i {
                assert(s.take(i)[k] == s[k]);
            } else {
                assert(s.skip(j)[k - j] == s[k]);
            }
        }
    } else if is_blank(s) {
        assert(trimmed(s)[0] == s[i]);
    }
}

} // verus!
