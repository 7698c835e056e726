//! Character-level text helpers shared by the registry and the store adapter.

use vstd::prelude::*;
use vstd::slice::slice_subrange;
use vstd::std_specs::iter::IteratorSpec;

verus! {

/// `String::push` appends one character to the end of the string and leaves
/// the characters before it as they were.
pub assume_specification[ String::push ](s: &mut String, ch: char)
    ensures
        final(s)@ == old(s)@.push(ch),
;

/// The characters of `s`, in order.
pub fn to_chars(s: &str) -> (r: Vec<char>)
    ensures
        r@ == s@,
{
    let mut out: Vec<char> = Vec::new();
    let mut it = s.chars();
    loop
        invariant
            it.obeys_prophetic_iter_laws(),
            it.decrease() is Some,
            out@ + it.remaining() == s@,
        decreases it.decrease()->0,
    {
        broadcast use {vstd::string::next_postcondition, vstd::string::axiom_spec_iter};
        match it.next() {
            Some(c) => {
                out.push(c);
            },
            None => {
                return out;
            },
        }
    }
}

/// The string made of the characters of `v`, in order.
pub fn to_text(v: &[char]) -> (r: String)
    ensures
        r@ == v@,
{
    let mut out = String::new();
    let mut i: usize = 0;
    while i < v.len()
        invariant
            i <= v@.len(),
            out@ == v@.subrange(0, i as int),
        decreases v@.len() - i,
    {
        out.push(v[i]);
        i += 1;
        assert(v@.subrange(0, i as int) == v@.subrange(0, i - 1).push(v@[i - 1]));
    }
    assert(v@.subrange(0, i as int) == v@);
    out
}

/// A copy of the characters of `v` from index `from` up to, not including, `to`.
pub fn copy_range(v: &[char], from: usize, to: usize) -> (r: Vec<char>)
    requires
        from <= to <= v@.len(),
    ensures
        r@ == v@.subrange(from as int, to as int),
{
    let mut out: Vec<char> = Vec::new();
    let mut i: usize = from;
    while i < to
        invariant
            from <= i <= to <= v@.len(),
            out@ == v@.subrange(from as int, i as int),
        decreases to - i,
    {
        out.push(v[i]);
        i += 1;
        assert(v@.subrange(from as int, i as int) == v@.subrange(from as int, i - 1).push(
            v@[i - 1],
        ));
    }
    out
}

/// The classes of characters that are cut away from the ends of a text.
#[derive(Clone, Copy, Debug, PartialEq, Eq, Structural)]
pub enum CharClass {
    /// Unicode white space, the characters with the property `White_Space`.
    Space,
    /// The line feed and the carriage return.
    LineEnd,
}

/// Whether `c` is Unicode white space.
pub open spec fn is_space(c: char) -> bool {
    ||| '\u{9}' <= c <= '\u{d}'
    ||| c == ' '
    ||| c == '\u{85}'
    ||| c == '\u{a0}'
    ||| c == '\u{1680}'
    ||| '\u{2000}' <= c <= '\u{200a}'
    ||| c == '\u{2028}'
    ||| c == '\u{2029}'
    ||| c == '\u{202f}'
    ||| c == '\u{205f}'
    ||| c == '\u{3000}'
}

/// Whether `c` is a line feed or a carriage return.
pub open spec fn is_line_end(c: char) -> bool {
    c == '\n' || c == '\r'
}

impl CharClass {
    /// Whether `c` belongs to the class.
    pub open spec fn has(self, c: char) -> bool {
        match self {
            CharClass::Space => is_space(c),
            CharClass::LineEnd => is_line_end(c),
        }
    }

    /// Tests whether `c` belongs to the class.
    pub fn contains(self, c: char) -> (r: bool)
        ensures
            r == self.has(c),
    {
        match self {
            CharClass::Space => {
                ('\u{9}' <= c && c <= '\u{d}') || c == ' ' || c == '\u{85}' || c == '\u{a0}' || c
                    == '\u{1680}' || ('\u{2000}' <= c && c <= '\u{200a}') || c == '\u{2028}' || c
                    == '\u{2029}' || c == '\u{202f}' || c == '\u{205f}' || c == '\u{3000}'
            },
            CharClass::LineEnd => c == '\n' || c == '\r',
        }
    }
}

/// `s` without its longest suffix of characters of `class`.
pub open spec fn drop_trailing(s: Seq<char>, class: CharClass) -> Seq<char>
    decreases s.len(),
{
    if s.len() > 0 && class.has(s.last()) {
        drop_trailing(s.drop_last(), class)
    } else {
        s
    }
}

/// `s` without its longest prefix of characters of `class`.
pub open spec fn drop_leading(s: Seq<char>, class: CharClass) -> Seq<char>
    decreases s.len(),
{
    if s.len() > 0 && class.has(s[0]) {
        drop_leading(s.drop_first(), class)
    } else {
        s
    }
}

/// `s` without white space at either end.
pub open spec fn trimmed(s: Seq<char>) -> Seq<char> {
    drop_leading(drop_trailing(s, CharClass::Space), CharClass::Space)
}

/// `s` without the line feeds and carriage returns at its end.
pub open spec fn without_line_end(s: Seq<char>) -> Seq<char> {
    drop_trailing(s, CharClass::LineEnd)
}

/// Whether `s` holds nothing but white space.
pub open spec fn is_blank(s: Seq<char>) -> bool {
    forall|i: int| 0 <= i < s.len() ==> is_space(#[trigger] s[i])
}

/// The length of `v` without its longest suffix of characters of `class`.
pub fn trailing_cut(v: &[char], class: CharClass) -> (n: usize)
    ensures
        n <= v@.len(),
        v@.subrange(0, n as int) == drop_trailing(v@, class),
{
    let mut n: usize = v.len();
    assert(v@.subrange(0, n as int) == v@);
    while n > 0 && class.contains(v[n - 1])
        invariant
            n <= v@.len(),
            drop_trailing(v@.subrange(0, n as int), class) == drop_trailing(v@, class),
        decreases n,
    {
        assert(v@.subrange(0, n as int).drop_last() == v@.subrange(0, n - 1));
        n -= 1;
    }
    n
}

/// The length of the longest prefix of `v` made of characters of `class`.
pub fn leading_cut(v: &[char], class: CharClass) -> (n: usize)
    ensures
        n <= v@.len(),
        v@.subrange(n as int, v@.len() as int) == drop_leading(v@, class),
{
    let mut n: usize = 0;
    assert(v@.subrange(0, v@.len() as int) == v@);
    while n < v.len() && class.contains(v[n])
        invariant
            n <= v@.len(),
            drop_leading(v@.subrange(n as int, v@.len() as int), class) == drop_leading(
                v@,
                class,
            ),
        decreases v@.len() - n,
    {
        assert(v@.subrange(n as int, v@.len() as int).drop_first() == v@.subrange(
            n + 1,
            v@.len() as int,
        ));
        n += 1;
    }
    n
}

/// What cutting a suffix of one class leaves: a prefix of `s` that does not
/// end in the class, followed in `s` by characters of the class alone.
pub proof fn lemma_drop_trailing(s: Seq<char>, class: CharClass)
    ensures
        drop_trailing(s, class).len() <= s.len(),
        drop_trailing(s, class) == s.subrange(0, drop_trailing(s, class).len() as int),
        drop_trailing(s, class).len() > 0 ==> !class.has(drop_trailing(s, class).last()),
        forall|i: int| drop_trailing(s, class).len() <= i < s.len() ==> class.has(#[trigger] s[i]),
    decreases s.len(),
{
    if s.len() > 0 && class.has(s.last()) {
        lemma_drop_trailing(s.drop_last(), class);
        let t = drop_trailing(s.drop_last(), class);
        assert(t == s.subrange(0, t.len() as int));
        assert forall|i: int| t.len() <= i < s.len() implies class.has(#[trigger] s[i]) by {
            if i < s.len() - 1 {
                assert(s[i] == s.drop_last()[i]);
            }
        }
    } else {
        assert(s == s.subrange(0, s.len() as int));
    }
}

/// What cutting a prefix of one class leaves: a suffix of `s` that does not
/// start in the class, preceded in `s` by characters of the class alone.
pub proof fn lemma_drop_leading(s: Seq<char>, class: CharClass)
    ensures
        drop_leading(s, class).len() <= s.len(),
        drop_leading(s, class) == s.subrange(
            s.len() - drop_leading(s, class).len(),
            s.len() as int,
        ),
        drop_leading(s, class).len() > 0 ==> !class.has(drop_leading(s, class)[0]),
        forall|i: int|
            0 <= i < s.len() - drop_leading(s, class).len() ==> class.has(#[trigger] s[i]),
    decreases s.len(),
{
    if s.len() > 0 && class.has(s[0]) {
        let r = s.drop_first();
        lemma_drop_leading(r, class);
        let t = drop_leading(r, class);
        assert(t == s.subrange(s.len() - t.len(), s.len() as int));
        assert forall|i: int| 0 <= i < s.len() - t.len() implies class.has(#[trigger] s[i]) by {
            if i > 0 {
                assert(s[i] == r[i - 1]);
            }
        }
    } else {
        assert(s == s.subrange(0, s.len() as int));
    }
}

/// A text is blank exactly when trimming leaves nothing of it.
pub proof fn lemma_blank_trimmed(s: Seq<char>)
    ensures
        is_blank(s) <==> trimmed(s).len() == 0,
        is_blank(s) <==> drop_trailing(s, CharClass::Space).len() == 0,
{
    let t = drop_trailing(s, CharClass::Space);
    lemma_drop_trailing(s, CharClass::Space);
    lemma_drop_leading(t, CharClass::Space);
    if t.len() > 0 {
        assert(t.last() == s[t.len() - 1]);
        let u = drop_leading(t, CharClass::Space);
        if u.len() == 0 {
            assert(CharClass::Space.has(t[t.len() - 1]));
        }
    }
}

/// `v` without white space at either end.
pub fn trim_chars(v: &[char]) -> (r: Vec<char>)
    ensures
        r@ == trimmed(v@),
{
    let end = trailing_cut(v, CharClass::Space);
    let head = slice_subrange(v, 0, end);
    let start = leading_cut(head, CharClass::Space);
    copy_range(head, start, end)
}

/// `s` without white space at either end.
pub fn trim(s: &str) -> (r: String)
    ensures
        r@ == trimmed(s@),
{
    let v = to_chars(s);
    let t = trim_chars(v.as_slice());
    to_text(t.as_slice())
}

/// `s` without the line feeds and carriage returns at its end. What stands
/// before them is kept as it is, white space included.
pub fn strip_line_end(s: &str) -> (r: String)
    ensures
        r@ == without_line_end(s@),
{
    let v = to_chars(s);
    let end = trailing_cut(v.as_slice(), CharClass::LineEnd);
    to_text(slice_subrange(v.as_slice(), 0, end))
}

/// Tests whether `s` holds nothing but white space.
pub fn blank(s: &str) -> (r: bool)
    ensures
        r == is_blank(s@),
{
    let v = to_chars(s);
    proof {
        lemma_blank_trimmed(v@);
    }
    trailing_cut(v.as_slice(), CharClass::Space) == 0
}

/// Whether `needle` stands in `hay` from index `i` on.
pub open spec fn occurs_at(hay: Seq<char>, needle: Seq<char>, i: int) -> bool {
    0 <= i && i + needle.len() <= hay.len() && hay.subrange(i, i + needle.len()) == needle
}

/// Whether `needle` stands somewhere in `hay` as a run of neighbouring characters.
pub open spec fn occurs(hay: Seq<char>, needle: Seq<char>) -> bool {
    exists|i: int| occurs_at(hay, needle, i)
}

/// Tests whether `needle` stands in `hay` from index `at` on.
fn matches_at(hay: &[char], needle: &[char], at: usize) -> (r: bool)
    requires
        at + needle@.len() <= hay@.len(),
    ensures
        r == occurs_at(hay@, needle@, at as int),
{
    let len = hay.len();
    let mut j: usize = 0;
    while j < needle.len()
        invariant
            j <= needle@.len(),
            len == hay@.len(),
            at + needle@.len() <= hay@.len(),
            forall|k: int| 0 <= k < j ==> hay@[at + k] == needle@[k],
        decreases needle@.len() - j,
    {
        if hay[at + j] != needle[j] {
            assert(hay@.subrange(at as int, at + needle@.len())[j as int] != needle@[j as int]);
            return false;
        }
        j += 1;
    }
    assert(hay@.subrange(at as int, at + needle@.len()) =~= needle@);
    true
}

/// Tests whether `needle` stands somewhere in `hay`.
pub fn contains_chars(hay: &[char], needle: &[char]) -> (r: bool)
    ensures
        r == occurs(hay@, needle@),
{
    if needle.len() > hay.len() {
        return false;
    }
    let last: usize = hay.len() - needle.len();
    let mut i: usize = 0;
    loop
        invariant
            i <= last,
            last == hay@.len() - needle@.len(),
            forall|k: int| 0 <= k < i ==> !occurs_at(hay@, needle@, k),
        decreases last - i,
    {
        if matches_at(hay, needle, i) {
            return true;
        }
        if i == last {
            return false;
        }
        i += 1;
    }
}

/// Tests whether `needle` stands somewhere in `hay`.
pub fn contains(hay: &str, needle: &str) -> (r: bool)
    ensures
        r == occurs(hay@, needle@),
{
    let h = to_chars(hay);
    let n = to_chars(needle);
    contains_chars(h.as_slice(), n.as_slice())
}

/// The number of characters of `s` that stand before its first `c`; the
/// length of `s` where it holds no `c`.
pub open spec fn span_before(s: Seq<char>, c: char) -> nat
    decreases s.len(),
{
    if s.len() == 0 || s[0] == c {
        0
    } else {
        1 + span_before(s.drop_first(), c)
    }
}

/// `span_before` is the least index that holds `c`, or the length.
pub proof fn lemma_span_before(s: Seq<char>, c: char)
    ensures
        span_before(s, c) <= s.len(),
        span_before(s, c) < s.len() ==> s[span_before(s, c) as int] == c,
        forall|i: int| 0 <= i < span_before(s, c) ==> #[trigger] s[i] != c,
    decreases s.len(),
{
    if s.len() == 0 || s[0] == c {
    } else {
        let r = s.drop_first();
        lemma_span_before(r, c);
        assert forall|i: int| 0 <= i < span_before(s, c) implies #[trigger] s[i] != c by {
            if i > 0 {
                assert(s[i] == r[i - 1]);
            }
        }
    }
}

/// An index that holds `c` and has no `c` before it is `span_before`.
pub proof fn lemma_span_before_is(s: Seq<char>, c: char, n: int)
    requires
        0 <= n <= s.len(),
        n < s.len() ==> s[n] == c,
        forall|i: int| 0 <= i < n ==> #[trigger] s[i] != c,
    ensures
        span_before(s, c) == n,
{
    lemma_span_before(s, c);
    let m = span_before(s, c) as int;
    if m < n {
        assert(s[m] != c);
    } else if n < m {
        assert(s[n] != c);
    }
}

/// The number of characters of `v` from index `from` on that stand before the
/// first `c` among them.
pub fn span_from(v: &[char], from: usize, c: char) -> (n: usize)
    requires
        from <= v@.len(),
    ensures
        n == span_before(v@.subrange(from as int, v@.len() as int), c),
        from + n <= v@.len(),
{
    let mut i: usize = from;
    while i < v.len() && v[i] != c
        invariant
            from <= i <= v@.len(),
            forall|k: int| from <= k < i ==> v@[k] != c,
        decreases v@.len() - i,
    {
        i += 1;
    }
    proof {
        lemma_span_before_is(v@.subrange(from as int, v@.len() as int), c, i - from);
    }
    i - from
}

/// The lines of `s`: the runs between its line feeds, the one after the last
/// line feed included.
pub open spec fn lines(s: Seq<char>) -> Seq<Seq<char>>
    decreases s.len(),
{
    let n = span_before(s, '\n');
    if n < s.len() {
        seq![s.take(n as int)] + lines(s.skip(n as int + 1))
    } else {
        seq![s]
    }
}

/// The texts that the vectors of `v` hold, in order.
pub open spec fn rows(v: Seq<Vec<char>>) -> Seq<Seq<char>> {
    Seq::new(v.len(), |i: int| v[i]@)
}

/// Splits `v` at its line feeds.
pub fn split_lines(v: &[char]) -> (r: Vec<Vec<char>>)
    ensures
        rows(r@) == lines(v@),
{
    let mut out: Vec<Vec<char>> = Vec::new();
    let mut pos: usize = 0;
    let len = v.len();
    assert(rows(out@) + lines(v@.skip(0)) == lines(v@)) by {
        assert(v@.skip(0) == v@);
        assert(rows(out@) + lines(v@) == lines(v@));
    }
    loop
        invariant
            pos <= v@.len(),
            len == v@.len(),
            rows(out@) + lines(v@.skip(pos as int)) == lines(v@),
        decreases v@.len() - pos,
    {
        let n = span_from(v, pos, '\n');
        let ghost rest = v@.skip(pos as int);
        let ghost before = rows(out@);
        assert(rest == v@.subrange(pos as int, v@.len() as int));
        let line = copy_range(v, pos, pos + n);
        assert(line@ == rest.take(n as int));
        out.push(line);
        assert(rows(out@) == before.push(line@));
        if pos + n < v.len() {
            assert(rest.skip(n + 1) == v@.skip(pos + n + 1));
            assert(before.push(line@) + lines(rest.skip(n + 1)) == before + lines(rest));
            pos = pos + n + 1;
        } else {
            assert(rest.take(n as int) == rest);
            assert(before.push(line@) == before + lines(rest));
            return out;
        }
    }
}

/// Appends the characters of `v` to `out`.
pub fn append_chars(out: &mut Vec<char>, v: &[char])
    ensures
        final(out)@ == old(out)@ + v@,
{
    let ghost before = out@;
    let mut i: usize = 0;
    assert(out@ == before + v@.take(0));
    while i < v.len()
        invariant
            i <= v@.len(),
            out@ == before + v@.take(i as int),
        decreases v@.len() - i,
    {
        out.push(v[i]);
        i += 1;
        assert(before + v@.take(i as int) == (before + v@.take(i - 1)).push(v@[i - 1]));
    }
    assert(v@.take(i as int) == v@);
}

/// A text without a line feed, a line feed and a rest: the text is the first
/// line, and the lines of the rest follow.
pub proof fn lemma_lines_first(a: Seq<char>, rest: Seq<char>)
    requires
        !a.contains('\n'),
    ensures
        lines(a + seq!['\n'] + rest) == seq![a] + lines(rest),
{
    let s = a + seq!['\n'] + rest;
    assert forall|i: int| 0 <= i < a.len() implies #[trigger] s[i] != '\n' by {
        assert(s[i] == a[i]);
        assert(a.contains(a[i]));
    }
    assert(s[a.len() as int] == '\n');
    lemma_span_before_is(s, '\n', a.len() as int);
    assert(s.take(a.len() as int) == a);
    assert(s.skip(a.len() as int + 1) == rest);
}

/// No line holds a line feed.
pub proof fn lemma_lines_hold_no_feed(s: Seq<char>, i: int)
    requires
        0 <= i < lines(s).len(),
    ensures
        !lines(s)[i].contains('\n'),
    decreases s.len(),
{
    let n = span_before(s, '\n') as int;
    lemma_span_before(s, '\n');
    if n < s.len() {
        if i == 0 {
            let l = s.take(n);
            if l.contains('\n') {
                let k = choose|k: int| 0 <= k < l.len() && l[k] == '\n';
                assert(s[k] == '\n');
            }
        } else {
            lemma_lines_hold_no_feed(s.skip(n + 1), i - 1);
        }
    } else {
        if s.contains('\n') {
            let k = choose|k: int| 0 <= k < s.len() && s[k] == '\n';
            assert(s[k] != '\n');
        }
    }
}

} // verus!
