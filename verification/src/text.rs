//! Character-level text handling shared by the telegram parser and the MQTT
//! message builders.

use vstd::prelude::*;

verus! {

/// The Unicode `White_Space` property, as `char::is_whitespace` reports it.
pub uninterp spec fn unicode_white_space(c: char) -> bool;

/// Calls `char::is_whitespace`; the result is named `unicode_white_space`.
/// Which characters have the property is left unsaid: the documentation of
/// `char::is_whitespace` refers to the Unicode Character Database for it.
#[verifier::external_body]
fn char_is_whitespace(c: char) -> (b: bool)
    ensures
        b == unicode_white_space(c),
{
    c.is_whitespace()
}

/// Calls `String::push`, which appends one `char` to the end of the string.
#[verifier::external_body]
pub(crate) fn push_char(s: &mut String, c: char)
    ensures
        final(s)@ == old(s)@.push(c),
{
    s.push(c)
}

/// The characters of `s`, in order.
pub(crate) fn chars_of(s: &str) -> (v: Vec<char>)
    ensures
        v@ == s@,
{
    let mut v: Vec<char> = Vec::new();
    for c in it: s.chars()
        invariant
            v@ == it.seq().take(it.index()),
    {
        v.push(c);
    }
    assert(v@ == s@);
    v
}


/// A `String` holding `chars[from..to]`.
pub(crate) fn string_of(chars: &Vec<char>, from: usize, to: usize) -> (s: String)
    requires
        from <= to <= chars@.len(),
    ensures
        s@ == chars@.subrange(from as int, to as int),
{
    let mut s = String::new();
    let mut i = from;
    while i < to
        invariant
            from <= i <= to <= chars@.len(),
            s@ == chars@.subrange(from as int, i as int),
        decreases to - i,
    {
        push_char(&mut s, chars[i]);
        i = i + 1;
        assert(s@ == chars@.subrange(from as int, i as int));
    }
    s
}

/// Whether `a` holds exactly the characters of `s`.
pub(crate) fn chars_equal_str(a: &Vec<char>, from: usize, to: usize, s: &str) -> (b: bool)
    requires
        from <= to <= a@.len(),
    ensures
        b == (a@.subrange(from as int, to as int) == s@),
{
    let t = chars_of(s);
    if to - from != t.len() {
        return false;
    }
    let mut i: usize = 0;
    while i < t.len()
        invariant
            from <= to <= a@.len(),
            to - from == t@.len(),
            t@ == s@,
            i <= t@.len(),
            forall|j: int| 0 <= j < i ==> a@[from + j] == t@[j],
        decreases t.len() - i,
    {
        if a[from + i] != t[i] {
            assert(a@.subrange(from as int, to as int)[i as int] != s@[i as int]);
            return false;
        }
        i = i + 1;
    }
    assert(a@.subrange(from as int, to as int) =~= s@);
    true
}

/// `s` with leading `White_Space` characters removed.
pub open spec fn trim_start(s: Seq<char>) -> Seq<char>
    decreases s.len(),
{
    if s.len() > 0 && unicode_white_space(s[0]) {
        trim_start(s.drop_first())
    } else {
        s
    }
}

/// `s` with trailing `White_Space` characters removed.
pub open spec fn trim_end(s: Seq<char>) -> Seq<char>
    decreases s.len(),
{
    if s.len() > 0 && unicode_white_space(s.last()) {
        trim_end(s.drop_last())
    } else {
        s
    }
}

/// `s` with leading and trailing `White_Space` characters removed, as
/// `str::trim` does.
pub open spec fn trim(s: Seq<char>) -> Seq<char> {
    trim_end(trim_start(s))
}

/// The bounds `(start, end)` of `trim(chars[from..to])` within `chars`.
pub(crate) fn trim_bounds(chars: &Vec<char>, from: usize, to: usize) -> (r: (usize, usize))
    requires
        from <= to <= chars@.len(),
    ensures
        from <= r.0 <= r.1 <= to,
        chars@.subrange(r.0 as int, r.1 as int) == trim(chars@.subrange(from as int, to as int)),
{
    let ghost s = chars@.subrange(from as int, to as int);
    let mut i = from;
    while i < to && char_is_whitespace(chars[i])
        invariant
            from <= i <= to <= chars@.len(),
            trim_start(s) == trim_start(chars@.subrange(i as int, to as int)),
        decreases to - i,
    {
        assert(chars@.subrange(i as int, to as int).drop_first() =~= chars@.subrange(i + 1, to as int));
        i = i + 1;
    }
    let ghost start = chars@.subrange(i as int, to as int);
    assert(trim_start(start) == start);
    let mut j = to;
    while j > i && char_is_whitespace(chars[j - 1])
        invariant
            from <= i <= j <= to <= chars@.len(),
            trim_end(start) == trim_end(chars@.subrange(i as int, j as int)),
        decreases j - i,
    {
        assert(chars@.subrange(i as int, j as int).drop_last() =~= chars@.subrange(i as int, j - 1));
        j = j - 1;
    }
    assert(trim_end(chars@.subrange(i as int, j as int)) == chars@.subrange(i as int, j as int));
    (i, j)
}

/// `i` is the position of the first `c` in `s`.
pub open spec fn is_first_index(s: Seq<char>, c: char, i: int) -> bool {
    0 <= i < s.len() && s[i] == c && !s.take(i).contains(c)
}

/// The index of the first `c` in `s`, if there is one.
pub open spec fn find_char(s: Seq<char>, c: char) -> Option<int> {
    if s.contains(c) {
        Some(choose|i: int| is_first_index(s, c, i))
    } else {
        None
    }
}

pub(crate) proof fn lemma_first_index_unique(s: Seq<char>, c: char, i: int)
    requires
        is_first_index(s, c, i),
    ensures
        find_char(s, c) == Some(i),
{
    assert(s.contains(c));
    let k = find_char(s, c)->0;
    assert(is_first_index(s, c, k));
    if k < i {
        assert(s.take(i)[k] == c);
        assert(s.take(i).contains(c));
    } else if i < k {
        assert(s.take(k)[i] == c);
        assert(s.take(k).contains(c));
    }
}

/// Where `find_char` finds `c`, it is the first `c`; where it finds none,
/// there is none.
pub(crate) proof fn lemma_find_char(s: Seq<char>, c: char)
    ensures
        match find_char(s, c) {
            Some(i) => is_first_index(s, c, i),
            None => !s.contains(c),
        },
    decreases s.len(),
{
    if s.contains(c) {
        let t = s.drop_last();
        if t.contains(c) {
            lemma_find_char(t, c);
            let i = find_char(t, c)->0;
            assert(t.take(i) =~= s.take(i));
            assert(is_first_index(s, c, i));
        } else {
            let w = choose|w: int| 0 <= w < s.len() && s[w] == c;
            if w < s.len() - 1 {
                assert(t[w] == c);
            }
            assert(s.take(s.len() - 1) =~= t);
            assert(is_first_index(s, c, s.len() - 1));
        }
    }
}

/// The position of the first `c` in `chars[from..to]`, relative to `from`.
pub(crate) fn find_char_in(chars: &Vec<char>, from: usize, to: usize, c: char) -> (r: Option<usize>)
    requires
        from <= to <= chars@.len(),
    ensures
        match r {
            Some(i) => find_char(chars@.subrange(from as int, to as int), c) == Some(i as int)
                && is_first_index(chars@.subrange(from as int, to as int), c, i as int),
            None => find_char(chars@.subrange(from as int, to as int), c) is None,
        },
{
    let ghost s = chars@.subrange(from as int, to as int);
    let mut i = from;
    while i < to
        invariant
            from <= i <= to <= chars@.len(),
            s == chars@.subrange(from as int, to as int),
            forall|j: int| 0 <= j < i - from ==> s[j] != c,
        decreases to - i,
    {
        if chars[i] == c {
            let k = i - from;
            assert(!s.take(k as int).contains(c)) by {
                if s.take(k as int).contains(c) {
                    let w = choose|w: int| 0 <= w < k && s.take(k as int)[w] == c;
                    assert(s[w] != c);
                }
            }
            proof {
                lemma_first_index_unique(s, c, k as int);
            }
            return Some(k);
        }
        i = i + 1;
    }
    assert(!s.contains(c)) by {
        if s.contains(c) {
            let w = choose|w: int| 0 <= w < s.len() && s[w] == c;
            assert(s[w] != c);
        }
    }
    None
}


/// `line` without one trailing carriage return.
pub open spec fn strip_cr(line: Seq<char>) -> Seq<char> {
    if line.len() > 0 && line.last() == '\r' {
        line.drop_last()
    } else {
        line
    }
}

/// Splitting `s` at line feeds: the finished lines (each without its `\n` and
/// one `\r` before it) and the unfinished tail after the last `\n`.
pub open spec fn line_split(s: Seq<char>) -> (Seq<Seq<char>>, Seq<char>)
    decreases s.len(),
{
    if s.len() == 0 {
        (Seq::empty(), Seq::empty())
    } else {
        let (done, tail) = line_split(s.drop_last());
        if s.last() == '\n' {
            (done.push(strip_cr(tail)), Seq::empty())
        } else {
            (done, tail.push(s.last()))
        }
    }
}

/// The lines of `s` as `str::lines` yields them: split at `\n` or `\r\n`,
/// with a last line only when text follows the final line feed.
pub open spec fn text_lines(s: Seq<char>) -> Seq<Seq<char>> {
    let (done, tail) = line_split(s);
    if tail.len() == 0 {
        done
    } else {
        done.push(tail)
    }
}

/// The sequences that a list of bounds selects from `chars`.
pub open spec fn pieces(chars: Seq<char>, bounds: Seq<(usize, usize)>) -> Seq<Seq<char>> {
    Seq::new(bounds.len(), |k: int| chars.subrange(bounds[k].0 as int, bounds[k].1 as int))
}

/// The bounds of the lines of `chars`, in the sense of `text_lines`.
pub(crate) fn line_bounds(chars: &Vec<char>) -> (r: Vec<(usize, usize)>)
    ensures
        pieces(chars@, r@) == text_lines(chars@),
        forall|k: int| 0 <= k < r@.len() ==> #[trigger] r@[k].0 <= r@[k].1 <= chars@.len(),
{
    let ghost s = chars@;
    let mut r: Vec<(usize, usize)> = Vec::new();
    let mut start: usize = 0;
    let mut i: usize = 0;
    while i < chars.len()
        invariant
            s == chars@,
            start <= i <= s.len(),
            forall|k: int| 0 <= k < r@.len() ==> #[trigger] r@[k].0 <= r@[k].1 <= s.len(),
            line_split(s.take(i as int)) == (pieces(s, r@), s.subrange(start as int, i as int)),
        decreases s.len() - i,
    {
        let ghost before = r@;
        assert(s.take(i + 1).drop_last() =~= s.take(i as int));
        if chars[i] == '\n' {
            let end: usize = if i > start && chars[i - 1] == '\r' { i - 1 } else { i };
            assert(strip_cr(s.subrange(start as int, i as int)) =~= s.subrange(start as int, end as int));
            r.push((start, end));
            assert(pieces(s, r@) =~= pieces(s, before).push(s.subrange(start as int, end as int)));
            start = i + 1;
            assert(s.subrange(start as int, i + 1) =~= Seq::<char>::empty());
        } else {
            assert(s.subrange(start as int, i + 1) =~= s.subrange(start as int, i as int).push(s[i as int]));
        }
        i = i + 1;
    }
    assert(s.take(s.len() as int) =~= s);
    if start < chars.len() {
        let ghost before = r@;
        r.push((start, chars.len()));
        assert(pieces(s, r@) =~= pieces(s, before).push(s.subrange(start as int, s.len() as int)));
    } else {
        assert(s.subrange(start as int, s.len() as int).len() == 0);
    }
    r
}

} // verus!
