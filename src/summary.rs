//! The per-client summary record: `key: value` lines, keys unique up to case,
//! rewritten whole on every change.

use vstd::prelude::*;
use vstd::string::*;

use crate::clock::{date_time_text, lemma_date_time_no_newline, Stamp};
use crate::text::{
    lemma_lines_have_no_newline, lemma_lines_of_joined, lines_of, lower_of, lowercase, no_newline,
    split_lines, strip_cr,
};

verus! {

/// One `key: value` pair of the record.
#[derive(Debug)]
pub struct SummaryEntry {
    pub key: String,
    pub value: String,
}

/// The record, in the order its keys were first written.
#[derive(Debug)]
pub struct SummaryRecord {
    pub entries: Vec<SummaryEntry>,
}

pub type Entries = Seq<(Seq<char>, Seq<char>)>;

impl View for SummaryRecord {
    type V = Entries;

    open spec fn view(&self) -> Entries {
        self.entries@.map_values(|e: SummaryEntry| (e.key@, e.value@))
    }
}

/// Whether the separator `": "` starts at index `k` of `s`.
pub open spec fn sep_at(s: Seq<char>, k: int) -> bool {
    0 <= k && k + 1 < s.len() && s[k] == ':' && s[k + 1] == ' '
}

/// Index of the first `": "` in `s`, or `s.len()` when there is none.
pub open spec fn sep_index(s: Seq<char>) -> int
    decreases s.len(),
{
    if s.len() < 2 {
        s.len() as int
    } else if s[0] == ':' && s[1] == ' ' {
        0
    } else {
        1 + sep_index(s.drop_first())
    }
}

pub proof fn lemma_sep_index_at(s: Seq<char>, j: int)
    requires
        0 <= j <= s.len(),
        forall|k: int| 0 <= k < j ==> !sep_at(s, k),
        j < s.len() ==> sep_at(s, j),
        j == s.len() || sep_at(s, j),
    ensures
        sep_index(s) == j,
    decreases s.len(),
{
    if s.len() < 2 {
        if j < s.len() {
            assert(!sep_at(s, j));
        }
    } else if s[0] == ':' && s[1] == ' ' {
        assert(sep_at(s, 0));
    } else {
        assert(!sep_at(s, 0));
        assert forall|k: int| 0 <= k < j - 1 implies !sep_at(s.drop_first(), k) by {
            assert(!sep_at(s, k + 1));
        }
        if j < s.len() {
            assert(sep_at(s.drop_first(), j - 1));
        }
        lemma_sep_index_at(s.drop_first(), j - 1);
    }
}

/// A line as a pair: the text before the first `": "` and the text after it.
/// A line without that separator holds no pair.
pub open spec fn parse_line(l: Seq<char>) -> Option<(Seq<char>, Seq<char>)> {
    let i = sep_index(l);
    if 0 <= i && i + 1 < l.len() {
        Some((l.take(i), l.skip(i + 2)))
    } else {
        None
    }
}

pub open spec fn parse_lines(ls: Seq<Seq<char>>) -> Entries
    decreases ls.len(),
{
    if ls.len() == 0 {
        seq![]
    } else {
        match parse_line(ls[0]) {
            Some(e) => seq![e] + parse_lines(ls.drop_first()),
            None => parse_lines(ls.drop_first()),
        }
    }
}

/// The pairs that a summary file's text holds, line by line.
pub open spec fn parse_summary(text: Seq<char>) -> Entries {
    parse_lines(lines_of(text))
}

pub open spec fn entry_line(e: (Seq<char>, Seq<char>)) -> Seq<char> {
    e.0 + seq![':', ' '] + e.1
}

pub open spec fn render_entries(es: Entries) -> Seq<char>
    decreases es.len(),
{
    if es.len() == 0 {
        seq![]
    } else {
        entry_line(es[0]) + seq!['\n'] + render_entries(es.drop_first())
    }
}

/// The file text of a record: one `key: value` line per pair, each ending in a
/// newline; a lone newline for an empty record.
pub open spec fn render_summary(es: Entries) -> Seq<char> {
    if es.len() == 0 {
        seq!['\n']
    } else {
        render_entries(es)
    }
}

/// Index of the first pair whose key satisfies `p`, or `es.len()`.
pub open spec fn first_where(es: Entries, p: spec_fn(Seq<char>) -> bool) -> int
    decreases es.len(),
{
    if es.len() == 0 {
        0
    } else if p(es[0].0) {
        0
    } else {
        1 + first_where(es.drop_first(), p)
    }
}

pub proof fn lemma_first_where_at(es: Entries, p: spec_fn(Seq<char>) -> bool, j: int)
    requires
        0 <= j <= es.len(),
        forall|k: int| 0 <= k < j ==> !p(#[trigger] es[k].0),
        j < es.len() ==> p(es[j].0),
    ensures
        first_where(es, p) == j,
    decreases es.len(),
{
    if es.len() > 0 && !p(es[0].0) {
        assert forall|k: int| 0 <= k < j - 1 implies !p(#[trigger] es.drop_first()[k].0) by {
            assert(es.drop_first()[k] == es[k + 1]);
        }
        lemma_first_where_at(es.drop_first(), p, j - 1);
    }
}

pub proof fn lemma_first_where(es: Entries, p: spec_fn(Seq<char>) -> bool)
    ensures
        0 <= first_where(es, p) <= es.len(),
        forall|k: int| 0 <= k < first_where(es, p) ==> !p(#[trigger] es[k].0),
        first_where(es, p) < es.len() ==> p(es[first_where(es, p)].0),
    decreases es.len(),
{
    if es.len() > 0 && !p(es[0].0) {
        lemma_first_where(es.drop_first(), p);
        assert forall|k: int| 0 <= k < first_where(es, p) implies !p(#[trigger] es[k].0) by {
            if k > 0 {
                assert(es[k] == es.drop_first()[k - 1]);
            }
        }
    }
}

/// Keys equal to `key` up to case, as `str::to_lowercase` sees it.
pub open spec fn same_key(key: Seq<char>) -> spec_fn(Seq<char>) -> bool {
    |k: Seq<char>| lower_of(k) == lower_of(key)
}

/// Keys equal to `key` exactly.
pub open spec fn exact_key(key: Seq<char>) -> spec_fn(Seq<char>) -> bool {
    |k: Seq<char>| k == key
}

/// Sets the value at index `i`, keeping its key; or appends the pair when
/// `i` is past the end.
pub open spec fn put_at(es: Entries, i: int, key: Seq<char>, value: Seq<char>) -> Entries {
    if 0 <= i < es.len() {
        es.update(i, (es[i].0, value))
    } else {
        es.push((key, value))
    }
}

pub open spec fn last_seen_key() -> Seq<char> {
    seq!['l', 'a', 's', 't', '_', 's', 'e', 'e', 'n']
}

/// The record with `last_seen` set to `now`: the first pair keyed exactly
/// `last_seen` takes the value, or a new pair is appended.
pub open spec fn touch_entries(es: Entries, now: Seq<char>) -> Entries {
    put_at(es, first_where(es, exact_key(last_seen_key())), last_seen_key(), now)
}

/// The record with `key` set to `value` (the first pair whose key matches up
/// to case keeps its key and takes the value, or a new pair is appended),
/// then `last_seen` set to `now`.
pub open spec fn upsert_entries(es: Entries, key: Seq<char>, value: Seq<char>, now: Seq<char>) -> Entries {
    touch_entries(put_at(es, first_where(es, same_key(key)), key, value), now)
}

/// The value of the first pair whose key matches `key` up to case.
pub open spec fn lookup(es: Entries, key: Seq<char>) -> Option<Seq<char>> {
    let i = first_where(es, same_key(key));
    if 0 <= i < es.len() {
        Some(es[i].1)
    } else {
        None
    }
}

/// Pairs that a file line can hold: no newline anywhere, no `": "` in the key.
pub open spec fn writable(es: Entries) -> bool {
    forall|i: int|
        0 <= i < es.len() ==> {
            &&& no_newline(#[trigger] es[i].0)
            &&& no_newline(es[i].1)
            &&& forall|k: int| !sep_at(es[i].0, k)
        }
}

/// Touching the record twice changes nothing but the `last_seen` value: every
/// pair keeps its key and place, every pair not keyed `last_seen` keeps its
/// value, the record grows by at most one pair, and `last_seen` holds the
/// second time.
pub proof fn lemma_touch_twice(es: Entries, t1: Seq<char>, t2: Seq<char>)
    ensures
        ({
            let r = touch_entries(touch_entries(es, t1), t2);
            &&& es.len() <= r.len() <= es.len() + 1
            &&& r.len() == touch_entries(es, t1).len()
            &&& forall|i: int| 0 <= i < es.len() ==> (#[trigger] r[i]).0 == es[i].0
            &&& forall|i: int|
                0 <= i < es.len() && es[i].0 != last_seen_key() ==> #[trigger] r[i] == es[i]
            &&& r[first_where(r, exact_key(last_seen_key()))] == (last_seen_key(), t2)
        }),
{
    let p = exact_key(last_seen_key());
    lemma_first_where(es, p);
    let e1 = touch_entries(es, t1);
    let j = first_where(es, p);
    assert(p(e1[j].0));
    if j < es.len() {
        assert forall|k: int| 0 <= k < j implies !p(#[trigger] e1[k].0) by {
            assert(e1[k] == es[k]);
        }
    }
    lemma_first_where_at(e1, p, j);
    let r = touch_entries(e1, t2);
    lemma_first_where_at(r, p, j);
}

pub proof fn lemma_parse_entry_line(e: (Seq<char>, Seq<char>))
    requires
        forall|k: int| !sep_at(e.0, k),
    ensures
        parse_line(strip_cr(entry_line(e))) == Some((e.0, strip_cr(e.1))),
{
    let l = strip_cr(entry_line(e));
    assert(l =~= e.0 + seq![':', ' '] + strip_cr(e.1));
    let n = e.0.len() as int;
    assert forall|k: int| 0 <= k < n implies !sep_at(l, k) by {
        if k + 1 < n {
            assert(!sep_at(e.0, k));
            assert(l[k] == e.0[k] && l[k + 1] == e.0[k + 1]);
        } else {
            assert(l[k + 1] == ':');
        }
    }
    assert(sep_at(l, n));
    lemma_sep_index_at(l, n);
    assert(l.take(n) =~= e.0);
    assert(l.skip(n + 2) =~= strip_cr(e.1));
}

pub proof fn lemma_parse_render_entries(es: Entries)
    requires
        writable(es),
    ensures
        parse_lines(lines_of(render_entries(es))) == es.map_values(
            |e: (Seq<char>, Seq<char>)| (e.0, strip_cr(e.1)),
        ),
    decreases es.len(),
{
    let strip = |e: (Seq<char>, Seq<char>)| (e.0, strip_cr(e.1));
    if es.len() == 0 {
        assert(es.map_values(strip) =~= Seq::<(Seq<char>, Seq<char>)>::empty());
    } else {
        let line = entry_line(es[0]);
        let rest = es.drop_first();
        assert(writable(rest)) by {
            assert forall|i: int| 0 <= i < rest.len() implies {
                &&& no_newline(#[trigger] rest[i].0)
                &&& no_newline(rest[i].1)
                &&& forall|k: int| !sep_at(rest[i].0, k)
            } by {
                assert(rest[i] == es[i + 1]);
            }
        }
        lemma_parse_render_entries(rest);
        assert(no_newline(es[0].0) && no_newline(es[0].1));
        assert(no_newline(line)) by {
            assert forall|k: int| 0 <= k < line.len() implies line[k] != '\n' by {
                if k < es[0].0.len() {
                    assert(line[k] == es[0].0[k]);
                } else if k >= es[0].0.len() + 2 {
                    assert(line[k] == es[0].1[k - es[0].0.len() - 2]);
                }
            }
        }
        lemma_lines_of_joined(line, render_entries(rest));
        let ls = lines_of(render_entries(es));
        assert(render_entries(es) == line + seq!['\n'] + render_entries(rest));
        assert(ls == seq![strip_cr(line)] + lines_of(render_entries(rest)));
        assert(ls.drop_first() =~= lines_of(render_entries(rest)));
        lemma_parse_entry_line(es[0]);
        assert(es.map_values(strip) =~= seq![strip(es[0])] + rest.map_values(strip));
    }
}

/// A record whose pairs fit on file lines reads back from its file text as it
/// was, but for a carriage return at the end of a value.
pub proof fn lemma_render_parse(es: Entries)
    requires
        writable(es),
    ensures
        parse_summary(render_summary(es)) == es.map_values(
            |e: (Seq<char>, Seq<char>)| (e.0, strip_cr(e.1)),
        ),
{
    if es.len() == 0 {
        lemma_lines_of_joined(seq![], seq![]);
        assert(seq!['\n'] =~= Seq::<char>::empty() + seq!['\n'] + Seq::<char>::empty());
        let ls = lines_of(seq!['\n']);
        assert(strip_cr(Seq::<char>::empty()) =~= Seq::<char>::empty());
        assert(ls =~= seq![Seq::<char>::empty()]);
        assert(ls.drop_first() =~= Seq::<Seq<char>>::empty());
        assert(sep_index(Seq::<char>::empty()) == 0);
        assert(parse_line(ls[0]) is None);
        assert(parse_lines(ls) == parse_lines(ls.drop_first()));
        assert(parse_summary(render_summary(es)) =~= Seq::<(Seq<char>, Seq<char>)>::empty());
        assert(es.map_values(|e: (Seq<char>, Seq<char>)| (e.0, strip_cr(e.1)))
            =~= Seq::<(Seq<char>, Seq<char>)>::empty());
    } else {
        lemma_parse_render_entries(es);
    }
}

pub open spec fn name_key() -> Seq<char> {
    seq!['n', 'a', 'm', 'e']
}

/// Writing `name: Bob` into a record and reading the file text back gives
/// `Bob` for `name`. Left out: records whose first pair matching `name` up to
/// case is keyed exactly `last_seen`, which the refresh of `last_seen` would
/// then overwrite.
pub proof fn lemma_name_round_trip(es: Entries, now: Seq<char>)
    requires
        writable(es),
        no_newline(now),
        first_where(es, same_key(name_key())) < es.len() ==> es[first_where(
            es,
            same_key(name_key()),
        )].0 != last_seen_key(),
    ensures
        lookup(
            parse_summary(render_summary(upsert_entries(es, name_key(), seq!['B', 'o', 'b'], now))),
            name_key(),
        ) == Some(seq!['B', 'o', 'b']),
{
    let bob = seq!['B', 'o', 'b'];
    let ps = same_key(name_key());
    let pe = exact_key(last_seen_key());
    lemma_first_where(es, ps);
    let i = first_where(es, ps);
    let e1 = put_at(es, i, name_key(), bob);
    lemma_first_where(e1, pe);
    let j = first_where(e1, pe);
    let e2 = put_at(e1, j, last_seen_key(), now);
    assert(name_key() != last_seen_key()) by {
        assert(name_key().len() != last_seen_key().len());
    }
    assert(i != j) by {
        if i == j {
            assert(e1[i].0 == last_seen_key());
        }
    }
    assert(e2.len() >= e1.len() && e1.len() >= es.len());
    assert forall|k: int| 0 <= k < e1.len() implies (#[trigger] e2[k]).0 == e1[k].0 by {}
    assert forall|k: int| 0 <= k < es.len() implies (#[trigger] e1[k]).0 == es[k].0 by {}
    assert(e2[i] == (e1[i].0, bob));
    assert forall|k: int| 0 <= k < i implies !ps(#[trigger] e2[k].0) by {
        assert(e2[k].0 == es[k].0);
    }
    lemma_first_where_at(e2, ps, i);
    assert(writable(e2)) by {
        assert(no_newline(bob));
        assert forall|k: int| 0 <= k < e2.len() implies {
            &&& no_newline(#[trigger] e2[k].0)
            &&& no_newline(e2[k].1)
            &&& forall|m: int| !sep_at(e2[k].0, m)
        } by {
            if k < es.len() {
                assert(e2[k].0 == es[k].0);
                if k != i && k != j {
                    assert(e2[k] == es[k]);
                }
            } else if k == i {
                assert(e2[k].0 == name_key());
                assert forall|m: int| !sep_at(e2[k].0, m) by {
                    if sep_at(e2[k].0, m) {
                        assert(name_key()[m] == ':');
                    }
                }
            } else {
                assert(e2[k].0 == last_seen_key());
                assert forall|m: int| !sep_at(e2[k].0, m) by {
                    if sep_at(e2[k].0, m) {
                        assert(last_seen_key()[m] == ':');
                    }
                }
            }
        }
    }
    lemma_render_parse(e2);
    let out = parse_summary(render_summary(e2));
    let strip = |e: (Seq<char>, Seq<char>)| (e.0, strip_cr(e.1));
    assert(out == e2.map_values(strip));
    assert forall|k: int| 0 <= k < i implies !ps(#[trigger] out[k].0) by {
        assert(out[k].0 == e2[k].0);
    }
    assert(out[i] == strip(e2[i]));
    assert(strip_cr(bob) == bob);
    lemma_first_where_at(out, ps, i);
}

pub proof fn lemma_sep_index(s: Seq<char>)
    ensures
        0 <= sep_index(s) <= s.len(),
        forall|k: int| 0 <= k < sep_index(s) ==> !sep_at(s, k),
    decreases s.len(),
{
    if s.len() >= 2 && !(s[0] == ':' && s[1] == ' ') {
        lemma_sep_index(s.drop_first());
        assert forall|k: int| 0 <= k < sep_index(s) implies !sep_at(s, k) by {
            if k > 0 {
                assert(!sep_at(s.drop_first(), k - 1));
            }
        }
    }
}

pub proof fn lemma_parse_lines_writable(ls: Seq<Seq<char>>)
    requires
        forall|j: int| 0 <= j < ls.len() ==> no_newline(#[trigger] ls[j]),
    ensures
        writable(parse_lines(ls)),
    decreases ls.len(),
{
    if ls.len() > 0 {
        let rest = ls.drop_first();
        assert forall|j: int| 0 <= j < rest.len() implies no_newline(#[trigger] rest[j]) by {
            assert(rest[j] == ls[j + 1]);
        }
        lemma_parse_lines_writable(rest);
        let l = ls[0];
        assert(no_newline(l));
        match parse_line(l) {
            Some(e) => {
                lemma_sep_index(l);
                let i = sep_index(l);
                assert(no_newline(e.0)) by {
                    assert forall|k: int| 0 <= k < e.0.len() implies e.0[k] != '\n' by {
                        assert(e.0[k] == l[k]);
                    }
                }
                assert(no_newline(e.1)) by {
                    assert forall|k: int| 0 <= k < e.1.len() implies e.1[k] != '\n' by {
                        assert(e.1[k] == l[k + i + 2]);
                    }
                }
                assert forall|m: int| !sep_at(e.0, m) by {
                    if sep_at(e.0, m) {
                        assert(sep_at(l, m));
                    }
                }
                let ps = parse_lines(ls);
                assert(ps == seq![e] + parse_lines(rest));
                assert forall|j: int| 0 <= j < ps.len() implies {
                    &&& no_newline(#[trigger] ps[j].0)
                    &&& no_newline(ps[j].1)
                    &&& forall|k: int| !sep_at(ps[j].0, k)
                } by {
                    if j > 0 {
                        assert(ps[j] == parse_lines(rest)[j - 1]);
                    }
                }
            },
            None => {},
        }
    }
}

/// Every record read from a file's text can be written back line for line.
pub proof fn lemma_parse_writable(text: Seq<char>)
    ensures
        writable(parse_summary(text)),
{
    lemma_lines_have_no_newline(text);
    lemma_parse_lines_writable(lines_of(text));
}

/// Storing `name: Bob` into a summary file's text, at any time, and reading
/// the new text back gives `Bob` for `name`. Left out: texts whose first pair
/// matching `name` up to case is keyed exactly `last_seen`, which the refresh
/// of `last_seen` would then overwrite.
pub proof fn lemma_summary_name_round_trip(existing: Seq<char>, at: Stamp)
    requires
        ({
            let es = parse_summary(existing);
            let i = first_where(es, same_key(name_key()));
            i < es.len() ==> es[i].0 != last_seen_key()
        }),
    ensures
        lookup(
            parse_summary(
                render_summary(
                    upsert_entries(
                        parse_summary(existing),
                        name_key(),
                        seq!['B', 'o', 'b'],
                        date_time_text(at),
                    ),
                ),
            ),
            name_key(),
        ) == Some(seq!['B', 'o', 'b']),
{
    lemma_parse_writable(existing);
    lemma_date_time_no_newline(at);
    lemma_name_round_trip(parse_summary(existing), date_time_text(at));
}

pub proof fn lemma_touch_entries(es: Entries, now: Seq<char>)
    ensures
        ({
            let r = touch_entries(es, now);
            let j = first_where(es, exact_key(last_seen_key()));
            &&& r.len() == if j < es.len() {
                es.len()
            } else {
                es.len() + 1
            }
            &&& forall|i: int| 0 <= i < es.len() ==> (#[trigger] r[i]).0 == es[i].0
            &&& forall|i: int|
                0 <= i < es.len() && es[i].0 != last_seen_key() ==> #[trigger] r[i] == es[i]
            &&& exists|k: int| 0 <= k < r.len() && r[k] == (last_seen_key(), now)
        }),
{
    let p = exact_key(last_seen_key());
    lemma_first_where(es, p);
    let r = touch_entries(es, now);
    let j = first_where(es, p);
    assert(r[j] == (last_seen_key(), now));
}

pub proof fn lemma_touch_writable(es: Entries, now: Seq<char>)
    requires
        writable(es),
        no_newline(now),
    ensures
        writable(touch_entries(es, now)),
{
    let r = touch_entries(es, now);
    lemma_touch_entries(es, now);
    assert forall|i: int| 0 <= i < r.len() implies {
        &&& no_newline(#[trigger] r[i].0)
        &&& no_newline(r[i].1)
        &&& forall|m: int| !sep_at(r[i].0, m)
    } by {
        if i < es.len() {
            assert(r[i].0 == es[i].0);
            assert(r[i].1 == es[i].1 || r[i].1 == now);
        } else {
            assert(r[i] == (last_seen_key(), now));
            assert forall|m: int| !sep_at(r[i].0, m) by {
                if sep_at(r[i].0, m) {
                    assert(last_seen_key()[m] == ':');
                }
            }
        }
    }
}

/// Refreshing `last_seen` in a summary file's text twice, the text read back
/// each time: the record grows by at most one pair, and only on the first
/// refresh; every pair keeps its key and place; a pair not keyed `last_seen`
/// keeps its value, less a carriage return at its end, which reading back
/// a line drops.
pub proof fn lemma_touch_text_twice(s0: Seq<char>, t1: Stamp, t2: Stamp)
    ensures
        ({
            let e0 = parse_summary(s0);
            let e1 = parse_summary(render_summary(touch_entries(e0, date_time_text(t1))));
            let e2 = parse_summary(render_summary(touch_entries(e1, date_time_text(t2))));
            &&& e0.len() <= e1.len() <= e0.len() + 1
            &&& e2.len() == e1.len()
            &&& forall|i: int| 0 <= i < e0.len() ==> (#[trigger] e1[i]).0 == e0[i].0
            &&& forall|i: int|
                0 <= i < e0.len() && e0[i].0 != last_seen_key() ==> (#[trigger] e1[i]).1
                    == strip_cr(e0[i].1)
            &&& forall|i: int| 0 <= i < e1.len() ==> (#[trigger] e2[i]).0 == e1[i].0
            &&& forall|i: int|
                0 <= i < e1.len() && e1[i].0 != last_seen_key() ==> (#[trigger] e2[i]).1
                    == strip_cr(e1[i].1)
        }),
{
    let n1 = date_time_text(t1);
    let n2 = date_time_text(t2);
    let e0 = parse_summary(s0);
    lemma_parse_writable(s0);
    lemma_date_time_no_newline(t1);
    lemma_date_time_no_newline(t2);
    let r1 = touch_entries(e0, n1);
    lemma_touch_entries(e0, n1);
    lemma_touch_writable(e0, n1);
    lemma_render_parse(r1);
    let e1 = parse_summary(render_summary(r1));
    lemma_parse_writable(render_summary(r1));
    let r2 = touch_entries(e1, n2);
    lemma_touch_entries(e1, n2);
    lemma_touch_writable(e1, n2);
    lemma_render_parse(r2);
    let e2 = parse_summary(render_summary(r2));
    let k = choose|k: int| 0 <= k < r1.len() && r1[k] == (last_seen_key(), n1);
    assert(e1[k].0 == last_seen_key());
    lemma_first_where(e1, exact_key(last_seen_key()));
    assert(first_where(e1, exact_key(last_seen_key())) < e1.len()) by {
        if first_where(e1, exact_key(last_seen_key())) >= e1.len() {
            assert(!exact_key(last_seen_key())(e1[k].0));
        }
    }
    assert forall|i: int| 0 <= i < e0.len() implies (#[trigger] e1[i]).0 == e0[i].0 by {
        assert(e1[i].0 == r1[i].0);
    }
    assert forall|i: int| 0 <= i < e0.len() && e0[i].0 != last_seen_key() implies (
    #[trigger] e1[i]).1 == strip_cr(e0[i].1) by {
        assert(r1[i] == e0[i]);
    }
    assert forall|i: int| 0 <= i < e1.len() implies (#[trigger] e2[i]).0 == e1[i].0 by {
        assert(e2[i].0 == r2[i].0);
    }
    assert forall|i: int| 0 <= i < e1.len() && e1[i].0 != last_seen_key() implies (
    #[trigger] e2[i]).1 == strip_cr(e1[i].1) by {
        assert(r2[i] == e1[i]);
    }
}

impl SummaryEntry {
    fn parse_line(line: &str) -> (r: Option<SummaryEntry>)
        ensures
            r matches Some(e) ==> parse_line(line@) == Some((e.key@, e.value@)),
            r is None ==> parse_line(line@) is None,
    {
        let n = line.unicode_len();
        let mut k: usize = 0;
        while k < n && k + 1 < n
            invariant
                n == line@.len(),
                k <= n,
                forall|j: int| 0 <= j < k ==> !sep_at(line@, j),
            decreases n - k,
        {
            if line.get_char(k) == ':' && line.get_char(k + 1) == ' ' {
                proof {
                    lemma_sep_index_at(line@, k as int);
                }
                let key = String::from_str(line.substring_char(0, k));
                let value = String::from_str(line.substring_char(k + 2, n));
                assert(key@ =~= line@.take(k as int));
                assert(value@ =~= line@.skip(k + 2));
                return Some(SummaryEntry { key, value });
            }
            k = k + 1;
        }
        proof {
            assert forall|j: int| 0 <= j < n implies !sep_at(line@, j) by {
                if j >= k {
                    assert(!(j + 1 < n));
                }
            }
            lemma_sep_index_at(line@, n as int);
        }
        None
    }
}

impl SummaryRecord {
    pub fn new() -> (r: SummaryRecord)
        ensures
            r@ == Seq::<(Seq<char>, Seq<char>)>::empty(),
    {
        let r = SummaryRecord { entries: Vec::new() };
        assert(r@ =~= Seq::<(Seq<char>, Seq<char>)>::empty());
        r
    }

    /// Reads the pairs of a summary file's text; lines without `": "` are skipped.
    pub fn parse(text: &str) -> (r: SummaryRecord)
        ensures
            r@ == parse_summary(text@),
    {
        let lines = split_lines(text);
        let ghost ls = lines@.map_values(|l: String| l@);
        let mut r = SummaryRecord::new();
        let mut i: usize = 0;
        assert(ls.skip(0) =~= ls);
        while i < lines.len()
            invariant
                i <= lines@.len(),
                ls == lines@.map_values(|l: String| l@),
                ls == lines_of(text@),
                parse_summary(text@) == r@ + parse_lines(ls.skip(i as int)),
            decreases lines.len() - i,
        {
            let ghost before = r@;
            assert(ls.skip(i as int).drop_first() =~= ls.skip(i + 1));
            assert(ls.skip(i as int)[0] == lines@[i as int]@);
            match SummaryEntry::parse_line(lines[i].as_str()) {
                Some(e) => {
                    r.entries.push(e);
                    assert(r@ =~= before + seq![(e.key@, e.value@)]);
                },
                None => {},
            }
            i = i + 1;
        }
        assert(ls.skip(i as int) =~= Seq::<Seq<char>>::empty());
        assert(r@ =~= parse_summary(text@));
        r
    }

    /// The file text of the record.
    pub fn render(&self) -> (r: String)
        ensures
            r@ == render_summary(self@),
    {
        if self.entries.len() == 0 {
            proof {
                reveal_strlit("\n");
            }
            return String::from_str("\n");
        }
        proof {
            reveal_strlit(": ");
            reveal_strlit("\n");
        }
        let mut out = String::new();
        let mut i: usize = 0;
        assert(self@.skip(0) =~= self@);
        while i < self.entries.len()
            invariant
                i <= self@.len(),
                self@.len() == self.entries@.len(),
                render_entries(self@) == out@ + render_entries(self@.skip(i as int)),
            decreases self.entries.len() - i,
        {
            let ghost rest = self@.skip(i as int);
            assert(rest.drop_first() =~= self@.skip(i + 1));
            assert(rest[0] == (self.entries@[i as int].key@, self.entries@[i as int].value@));
            let ghost before = out@;
            assert(render_entries(rest) == entry_line(rest[0]) + seq!['\n'] + render_entries(
                rest.drop_first(),
            ));
            proof {
                reveal_strlit(": ");
                reveal_strlit("\n");
            }
            assert(": "@ =~= seq![':', ' ']);
            assert("\n"@ =~= seq!['\n']);
            out.append(self.entries[i].key.as_str());
            out.append(": ");
            out.append(self.entries[i].value.as_str());
            out.append("\n");
            assert(before + render_entries(rest) =~= out@ + render_entries(self@.skip(i + 1)));
            i = i + 1;
        }
        assert(self@.skip(i as int) =~= Seq::<(Seq<char>, Seq<char>)>::empty());
        assert(out@ =~= render_summary(self@));
        out
    }

    /// Index of the first pair whose key matches `key` up to case, or the length.
    fn position_same(&self, key: &str) -> (r: usize)
        ensures
            r == first_where(self@, same_key(key@)),
    {
        let want = lowercase(key);
        let mut i: usize = 0;
        while i < self.entries.len()
            invariant
                i <= self@.len(),
                self@.len() == self.entries@.len(),
                want@ == lower_of(key@),
                forall|k: int| 0 <= k < i ==> !same_key(key@)(#[trigger] self@[k].0),
            decreases self.entries.len() - i,
        {
            let have = lowercase(self.entries[i].key.as_str());
            if have == want {
                proof {
                    lemma_first_where_at(self@, same_key(key@), i as int);
                }
                return i;
            }
            i = i + 1;
        }
        proof {
            lemma_first_where_at(self@, same_key(key@), i as int);
        }
        i
    }

    /// Index of the first pair keyed exactly `key`, or the length.
    fn position_exact(&self, key: &String) -> (r: usize)
        ensures
            r == first_where(self@, exact_key(key@)),
    {
        let mut i: usize = 0;
        while i < self.entries.len()
            invariant
                i <= self@.len(),
                self@.len() == self.entries@.len(),
                forall|k: int| 0 <= k < i ==> !exact_key(key@)(#[trigger] self@[k].0),
            decreases self.entries.len() - i,
        {
            if self.entries[i].key == *key {
                proof {
                    lemma_first_where_at(self@, exact_key(key@), i as int);
                }
                return i;
            }
            i = i + 1;
        }
        proof {
            lemma_first_where_at(self@, exact_key(key@), i as int);
        }
        i
    }

    fn put(&mut self, i: usize, key: &str, value: &str)
        ensures
            final(self)@ == put_at(old(self)@, i as int, key@, value@),
    {
        if i < self.entries.len() {
            let k = self.entries[i].key.clone();
            self.entries.set(i, SummaryEntry { key: k, value: String::from_str(value) });
        } else {
            self.entries.push(SummaryEntry { key: String::from_str(key), value: String::from_str(value) });
        }
        assert(self@ =~= put_at(old(self)@, i as int, key@, value@));
    }

    /// Sets `last_seen` to `now`, leaving every other pair as it was.
    pub fn touch(&mut self, now: &str)
        ensures
            final(self)@ == touch_entries(old(self)@, now@),
    {
        let key = String::from_str("last_seen");
        proof {
            reveal_strlit("last_seen");
            assert(key@ =~= last_seen_key());
        }
        let i = self.position_exact(&key);
        self.put(i, key.as_str(), now);
    }

    /// Sets `key` to `value` (matching existing keys up to case), then sets
    /// `last_seen` to `now`.
    pub fn upsert(&mut self, key: &str, value: &str, now: &str)
        ensures
            final(self)@ == upsert_entries(old(self)@, key@, value@, now@),
    {
        let i = self.position_same(key);
        self.put(i, key, value);
        self.touch(now);
    }
}

} // verus!
