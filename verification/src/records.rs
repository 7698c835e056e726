//! The registry file: one record per line, an account and a service with a
//! tab between them. Blank lines, lines that begin with `#`, and lines
//! without a tab hold no record.

use crate::registry::Pair;
use crate::text::{
    copy_range, is_space, lemma_drop_leading, lemma_drop_trailing, lemma_lines_first,
    lemma_lines_hold_no_feed, lemma_span_before, lemma_span_before_is, lines, span_before, span_from, trim_chars, trimmed, CharClass,
};
use vstd::prelude::*;

verus! {

/// The record that a line holds, if it holds one. The line is read without
/// the white space at its ends; the account is what stands before its first
/// tab, the service what stands after it.
pub open spec fn record_of(line: Seq<char>) -> Option<Pair> {
    let t = trimmed(line);
    let n = span_before(t, '\t') as int;
    if t.len() == 0 || t[0] == '#' || n == t.len() {
        None
    } else {
        Some((t.take(n), t.skip(n + 1)))
    }
}

/// The records that the lines `ls` hold.
pub open spec fn records(ls: Seq<Seq<char>>) -> Set<Pair> {
    Set::new(|p: Pair| exists|i: int| 0 <= i < ls.len() && record_of(#[trigger] ls[i]) == Some(p))
}

/// The records that a registry file with the contents `text` holds.
pub open spec fn parsed(text: Seq<char>) -> Set<Pair> {
    records(lines(text))
}

/// The text of a record, without the line feed that ends its line.
pub open spec fn record_text(p: Pair) -> Seq<char> {
    p.0 + seq!['\t'] + p.1
}

/// The contents of a registry file that holds the pairs `ps`, one line for
/// each, in the order of `ps`.
pub open spec fn rendered(ps: Seq<Pair>) -> Seq<char>
    decreases ps.len(),
{
    if ps.len() == 0 {
        Seq::empty()
    } else {
        record_text(ps[0]) + seq!['\n'] + rendered(ps.drop_first())
    }
}

/// Whether the file keeps the pair as it is: the account is not empty, holds
/// neither tab nor line feed, and begins with neither white space nor `#`;
/// the service is not empty, holds no line feed and does not end in white
/// space.
pub open spec fn storable(p: Pair) -> bool {
    &&& p.0.len() > 0
    &&& !is_space(p.0[0])
    &&& p.0[0] != '#'
    &&& !p.0.contains('\t')
    &&& !p.0.contains('\n')
    &&& p.1.len() > 0
    &&& !is_space(p.1.last())
    &&& !p.1.contains('\n')
}

/// Reads one line of the file.
pub fn parse_line(line: &[char]) -> (r: Option<(Vec<char>, Vec<char>)>)
    ensures
        match r {
            Some((account, service)) => record_of(line@) == Some((account@, service@)),
            None => record_of(line@) is None,
        },
{
    let t = trim_chars(line);
    if t.len() == 0 || t[0] == '#' {
        return None;
    }
    let n = span_from(t.as_slice(), 0, '\t');
    assert(t@.subrange(0, t@.len() as int) == t@);
    if n == t.len() {
        return None;
    }
    let account = copy_range(t.as_slice(), 0, n);
    let service = copy_range(t.as_slice(), n + 1, t.len());
    Some((account, service))
}

/// A line without a tab holds no record.
pub proof fn lemma_no_tab_no_record(line: Seq<char>)
    requires
        !line.contains('\t'),
    ensures
        record_of(line) is None,
{
    let t = trimmed(line);
    let n = span_before(t, '\t') as int;
    let u = crate::text::drop_trailing(line, CharClass::Space);
    lemma_drop_trailing(line, CharClass::Space);
    lemma_drop_leading(u, CharClass::Space);
    lemma_span_before(t, '\t');
    if n < t.len() {
        let k = u.len() - t.len() + n;
        assert(t[n] == u[k]);
        assert(u[k] == line[k]);
        assert(line.contains('\t'));
    }
}

/// A storable pair is read back from its own record text.
pub proof fn lemma_storable_record(p: Pair)
    requires
        storable(p),
    ensures
        record_of(record_text(p)) == Some(p),
        !record_text(p).contains('\n'),
{
    let l = record_text(p);
    assert(l.last() == p.1.last());
    assert(l[0] == p.0[0]);
    assert(trimmed(l) == l);
    assert forall|i: int| 0 <= i < p.0.len() implies #[trigger] l[i] != '\t' by {
        assert(l[i] == p.0[i]);
        assert(p.0.contains(p.0[i]));
    }
    assert(l[p.0.len() as int] == '\t');
    lemma_span_before_is(l, '\t', p.0.len() as int);
    assert(l.take(p.0.len() as int) =~= p.0);
    assert(l.skip(p.0.len() as int + 1) =~= p.1);
    if l.contains('\n') {
        let k = choose|k: int| 0 <= k < l.len() && l[k] == '\n';
        if k < p.0.len() {
            assert(p.0[k] == '\n');
            assert(p.0.contains('\n'));
        } else if k > p.0.len() {
            assert(p.1[k - p.0.len() - 1] == '\n');
            assert(p.1.contains('\n'));
        }
    }
}

/// What a line without a line feed holds as its record is storable.
pub proof fn lemma_record_storable(line: Seq<char>)
    requires
        !line.contains('\n'),
        record_of(line) is Some,
    ensures
        storable(record_of(line)->0),
{
    let p = record_of(line)->0;
    let u = crate::text::drop_trailing(line, CharClass::Space);
    let t = trimmed(line);
    let n = span_before(t, '\t') as int;
    let off = u.len() - t.len();
    lemma_drop_trailing(line, CharClass::Space);
    lemma_drop_leading(u, CharClass::Space);
    lemma_span_before(t, '\t');
    assert forall|i: int| 0 <= i < t.len() implies #[trigger] t[i] == line[off + i] by {
        assert(t[i] == u[off + i]);
        assert(u[off + i] == line[off + i]);
    }
    assert(t.last() == u.last());
    assert(!is_space(t[0]));
    assert(!is_space(t.last()));
    assert(is_space('\t'));
    assert(n > 0);
    assert(n + 1 < t.len());
    assert(p.0[0] == t[0]);
    assert(p.1.last() == t.last());
    if p.0.contains('\t') {
        let k = choose|k: int| 0 <= k < p.0.len() && p.0[k] == '\t';
        assert(t[k] == '\t');
    }
    if p.0.contains('\n') {
        let k = choose|k: int| 0 <= k < p.0.len() && p.0[k] == '\n';
        assert(t[k] == '\n');
        assert(line[off + k] == '\n');
    }
    if p.1.contains('\n') {
        let k = choose|k: int| 0 <= k < p.1.len() && p.1[k] == '\n';
        assert(t[n + 1 + k] == '\n');
        assert(line[off + n + 1 + k] == '\n');
    }
}

/// One more line adds its record, if it holds one, to those of the lines before it.
pub proof fn lemma_records_push(ls: Seq<Seq<char>>, line: Seq<char>)
    ensures
        records(ls.push(line)) == match record_of(line) {
            Some(p) => records(ls).insert(p),
            None => records(ls),
        },
{
    let more = ls.push(line);
    let want = match record_of(line) {
        Some(p) => records(ls).insert(p),
        None => records(ls),
    };
    assert forall|p: Pair| records(more).contains(p) <==> want.contains(p) by {
        if records(more).contains(p) {
            let i = choose|i: int| 0 <= i < more.len() && record_of(#[trigger] more[i]) == Some(p);
            if i < ls.len() {
                assert(record_of(ls[i]) == Some(p));
            }
        }
        if records(ls).contains(p) {
            let i = choose|i: int| 0 <= i < ls.len() && record_of(#[trigger] ls[i]) == Some(p);
            assert(record_of(more[i]) == Some(p));
        }
        if record_of(line) == Some(p) {
            assert(record_of(more[ls.len() as int]) == Some(p));
        }
    }
    assert(records(more) =~= want);
}

/// One more pair adds its line at the end of the file.
pub proof fn lemma_rendered_push(ps: Seq<Pair>, p: Pair)
    ensures
        rendered(ps.push(p)) == rendered(ps) + record_text(p) + seq!['\n'],
    decreases ps.len(),
{
    let more = ps.push(p);
    if ps.len() == 0 {
        assert(more.drop_first() == ps);
        assert(rendered(more) =~= rendered(ps) + record_text(p) + seq!['\n']);
    } else {
        lemma_rendered_push(ps.drop_first(), p);
        assert(more.drop_first() == ps.drop_first().push(p));
        assert(rendered(more) =~= rendered(ps) + record_text(p) + seq!['\n']);
    }
}

/// The lines of a file written from pairs without line feeds: the record
/// text of each pair in order, and one empty line after the last line feed.
pub proof fn lemma_rendered_lines(ps: Seq<Pair>)
    requires
        forall|i: int| 0 <= i < ps.len() ==> !record_text(#[trigger] ps[i]).contains('\n'),
    ensures
        lines(rendered(ps)) == ps.map_values(|p: Pair| record_text(p)).push(Seq::empty()),
    decreases ps.len(),
{
    let want = ps.map_values(|p: Pair| record_text(p)).push(Seq::empty());
    if ps.len() == 0 {
        assert(lines(rendered(ps)) =~= want);
    } else {
        let rest = ps.drop_first();
        assert forall|i: int| 0 <= i < rest.len() implies !record_text(
            #[trigger] rest[i],
        ).contains('\n') by {
            assert(rest[i] == ps[i + 1]);
        }
        lemma_rendered_lines(rest);
        lemma_lines_first(record_text(ps[0]), rendered(rest));
        assert(lines(rendered(ps)) =~= want);
    }
}

/// Writing storable pairs to a file and reading the file gives the same pairs.
pub proof fn lemma_round_trip(ps: Seq<Pair>)
    requires
        forall|i: int| 0 <= i < ps.len() ==> storable(#[trigger] ps[i]),
    ensures
        parsed(rendered(ps)) == ps.to_set(),
{
    assert forall|i: int| 0 <= i < ps.len() implies !record_text(#[trigger] ps[i]).contains(
        '\n',
    ) by {
        lemma_storable_record(ps[i]);
    }
    lemma_rendered_lines(ps);
    let ls = lines(rendered(ps));
    assert forall|p: Pair| records(ls).contains(p) <==> ps.to_set().contains(p) by {
        if records(ls).contains(p) {
            let i = choose|i: int| 0 <= i < ls.len() && record_of(#[trigger] ls[i]) == Some(p);
            if i < ps.len() {
                lemma_storable_record(ps[i]);
                assert(ps[i] == p);
            } else {
                assert(ls[i] =~= Seq::<char>::empty());
            }
        }
        if ps.contains(p) {
            let i = choose|i: int| 0 <= i < ps.len() && ps[i] == p;
            lemma_storable_record(ps[i]);
            assert(record_of(ls[i]) == Some(p));
        }
    }
    assert(records(ls) =~= ps.to_set());
}

/// Every pair read from a file is storable.
pub proof fn lemma_parsed_storable(text: Seq<char>, p: Pair)
    requires
        parsed(text).contains(p),
    ensures
        storable(p),
{
    let ls = lines(text);
    let i = choose|i: int| 0 <= i < ls.len() && record_of(#[trigger] ls[i]) == Some(p);
    lemma_lines_hold_no_feed(text, i);
    lemma_record_storable(ls[i]);
}

} // verus!
