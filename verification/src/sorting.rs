//! Reading the numeric sort keys off the front of each listed window and
//! ordering the rows by them: recency, visited, or tmux's own order.

use vstd::multiset::Multiset;
use vstd::prelude::*;

use crate::order::Order;
use crate::text::{
    decimal, decimal_is_the_digits_of_n, is_digit, lemma_first_index,
    parsing_a_written_number_gives_it_back,
    chars_of, dup, join, join_chars, lines, lines_of, parse_i64, parse_i64_chars, split_once,
    split_once_chars, string_of, views,
};

verus! {

/// A listed window with its sort keys read off the front: the visited stamp
/// (0 when the listing has none), the last activity, the session's
/// last-attached time, then the rest of the row.
pub type SortRow = (int, int, int, Seq<char>);

/// The numeric key in front of the first space and what follows that space;
/// `None` when there is no space or the field before it is not an `i64`.
pub open spec fn leading_key(s: Seq<char>) -> Option<(int, Seq<char>)> {
    match split_once(s, ' ') {
        Some((a, r)) => match parse_i64(a) {
            Some(v) => Some((v as int, r)),
            None => None,
        },
        None => None,
    }
}

/// The leading numeric key of `s`, or 0 when it has none.
pub open spec fn key_of(s: Seq<char>) -> int {
    match leading_key(s) {
        Some((k, _)) => k,
        None => 0,
    }
}

/// `s` after its leading numeric key; all of `s` when it has none, so a
/// field that is not a number stays in the row.
pub open spec fn after_key(s: Seq<char>) -> Seq<char> {
    match leading_key(s) {
        Some((_, r)) => r,
        None => s,
    }
}

/// A line `"<activity> <attached> <rest>"` read as its keys and the rest; it
/// has no visited stamp.
pub open spec fn sort_row(line: Seq<char>) -> SortRow {
    (0, key_of(line), key_of(after_key(line)), after_key(after_key(line)))
}

/// A line `"<seen> <activity> <attached> <rest>"` read as its keys and the rest.
pub open spec fn visited_row(line: Seq<char>) -> SortRow {
    let r = sort_row(after_key(line));
    (key_of(line), r.1, r.2, r.3)
}

/// The non-empty lines of `raw`, each read as a [`sort_row`].
pub open spec fn sort_rows(raw: Seq<char>) -> Seq<SortRow> {
    lines(raw).filter(|l: Seq<char>| l.len() > 0).map_values(|l: Seq<char>| sort_row(l))
}

/// The non-empty lines of `raw`, each read as a [`visited_row`].
pub open spec fn visited_rows(raw: Seq<char>) -> Seq<SortRow> {
    lines(raw).filter(|l: Seq<char>| l.len() > 0).map_values(|l: Seq<char>| visited_row(l))
}

/// Whether `a` ranks strictly below `b` in order `mode`. Recency compares
/// the activity, then the last-attached time; visited compares the stamp
/// first and falls back to recency when the stamps are equal.
pub open spec fn ranks_below(mode: Order, a: SortRow, b: SortRow) -> bool {
    let recency = a.1 < b.1 || (a.1 == b.1 && a.2 < b.2);
    match mode {
        Order::Visited => a.0 < b.0 || (a.0 == b.0 && recency),
        _ => recency,
    }
}

/// Whether neither row ranks below the other.
pub open spec fn ties(mode: Order, a: SortRow, b: SortRow) -> bool {
    !ranks_below(mode, a, b) && !ranks_below(mode, b, a)
}

/// `x` placed into `sorted` after every row that does not rank below it.
pub open spec fn insert_desc(mode: Order, sorted: Seq<SortRow>, x: SortRow) -> Seq<SortRow>
    decreases sorted.len(),
{
    if sorted.len() == 0 {
        seq![x]
    } else if ranks_below(mode, sorted.last(), x) {
        insert_desc(mode, sorted.drop_last(), x).push(sorted.last())
    } else {
        sorted.push(x)
    }
}

/// The rows highest first in order `mode`, in the stable order: rows that tie
/// keep their listing order.
pub open spec fn sort_desc(mode: Order, rows: Seq<SortRow>) -> Seq<SortRow>
    decreases rows.len(),
{
    if rows.len() == 0 {
        rows
    } else {
        insert_desc(mode, sort_desc(mode, rows.drop_last()), rows.last())
    }
}

/// The rows in the order `mode` asks for: recency and visited sort, session
/// keeps tmux's listing order.
pub open spec fn ordered_rows(rows: Seq<SortRow>, mode: Order) -> Seq<SortRow> {
    match mode {
        Order::Session => rows,
        _ => sort_desc(mode, rows),
    }
}

/// The text of each row, the keys gone.
pub open spec fn row_texts(rows: Seq<SortRow>) -> Seq<Seq<char>> {
    rows.map_values(|r: SortRow| r.3)
}

/// What [`strip_sort_keys`] returns for `raw` in order `mode`.
pub open spec fn strip_sort_keys_of(raw: Seq<char>, mode: Order) -> Seq<char> {
    join(row_texts(ordered_rows(sort_rows(raw), mode)), seq!['\n'])
}

/// What [`strip_window_keys`] returns for `raw` in order `mode`.
pub open spec fn strip_window_keys_of(raw: Seq<char>, mode: Order) -> Seq<char> {
    join(row_texts(ordered_rows(visited_rows(raw), mode)), seq!['\n'])
}

/// Whether no row of `s` ranks below a later one in order `mode`.
pub open spec fn descending(mode: Order, s: Seq<SortRow>) -> bool {
    forall|i: int, j: int|
        0 <= i < j < s.len() ==> !ranks_below(mode, #[trigger] s[i], #[trigger] s[j])
}

/// The rows of `s` that tie with `k`, in their order in `s`.
pub open spec fn tied_with(mode: Order, s: Seq<SortRow>, k: SortRow) -> Seq<SortRow> {
    s.filter(|r: SortRow| ties(mode, r, k))
}

proof fn lemma_insert_desc(mode: Order, sorted: Seq<SortRow>, x: SortRow, k: SortRow)
    ensures
        descending(mode, sorted) ==> descending(mode, insert_desc(mode, sorted, x)),
        tied_with(mode, insert_desc(mode, sorted, x), k) == if ties(mode, x, k) {
            tied_with(mode, sorted, k).push(x)
        } else {
            tied_with(mode, sorted, k)
        },
        insert_desc(mode, sorted, x).to_multiset() == sorted.to_multiset().insert(x),
    decreases sorted.len(),
{
    reveal_with_fuel(Seq::filter, 1);
    broadcast use vstd::seq_lib::group_to_multiset_ensures;

    let p = |r: SortRow| ties(mode, r, k);
    if sorted.len() == 0 {
        assert(insert_desc(mode, sorted, x) == seq![x]);
        assert(seq![x].drop_last() =~= sorted);
        assert(sorted.filter(p) =~= Seq::<SortRow>::empty());
        assert(sorted.to_multiset() =~= Multiset::empty());
        assert(seq![x] =~= sorted.push(x));
    } else if ranks_below(mode, sorted.last(), x) {
        let rest = sorted.drop_last();
        let l = sorted.last();
        lemma_insert_desc(mode, rest, x, k);
        let ins = insert_desc(mode, rest, x);
        let res = ins.push(l);
        assert(res.drop_last() =~= ins);
        assert(rest.push(l) =~= sorted);
        if descending(mode, sorted) {
            assert forall|i: int, j: int| 0 <= i < j < res.len() implies !ranks_below(
                mode,
                #[trigger] res[i],
                #[trigger] res[j],
            ) by {
                if j == res.len() - 1 {
                    assert(ins.to_multiset().count(res[i]) > 0);
                    assert(rest.to_multiset().insert(x).count(res[i]) > 0);
                    if res[i] != x {
                        assert(rest.to_multiset().count(res[i]) > 0);
                        assert(rest.contains(res[i]));
                        let t = choose|t: int| 0 <= t < rest.len() && rest[t] == res[i];
                        assert(sorted[t] == rest[t]);
                        assert(sorted[sorted.len() - 1] == l);
                    }
                } else {
                    assert(res[i] == ins[i] && res[j] == ins[j]);
                }
            }
        }
        assert(res.to_multiset() =~= sorted.to_multiset().insert(x)) by {
            assert(sorted.to_multiset() =~= rest.to_multiset().insert(l));
        }
    } else {
        let res = sorted.push(x);
        assert(res.drop_last() =~= sorted);
        if descending(mode, sorted) {
            assert forall|i: int, j: int| 0 <= i < j < res.len() implies !ranks_below(
                mode,
                #[trigger] res[i],
                #[trigger] res[j],
            ) by {
                if j == res.len() - 1 {
                    assert(!ranks_below(mode, sorted[sorted.len() - 1], x));
                    if i < sorted.len() - 1 {
                        assert(!ranks_below(mode, sorted[i], sorted[sorted.len() - 1]));
                    }
                } else {
                    assert(res[i] == sorted[i] && res[j] == sorted[j]);
                }
            }
        }
    }
}

/// Recency and visited order are stable descending sorts: no row ranks below
/// a later one, rows that tie keep their listing order, and no row is lost or
/// invented.
pub proof fn sort_is_stable_descending(mode: Order, rows: Seq<SortRow>, k: SortRow)
    ensures
        descending(mode, sort_desc(mode, rows)),
        tied_with(mode, sort_desc(mode, rows), k) == tied_with(mode, rows, k),
        sort_desc(mode, rows).to_multiset() == rows.to_multiset(),
    decreases rows.len(),
{
    reveal_with_fuel(Seq::filter, 1);
    broadcast use vstd::seq_lib::group_to_multiset_ensures;

    if rows.len() > 0 {
        sort_is_stable_descending(mode, rows.drop_last(), k);
        lemma_insert_desc(mode, sort_desc(mode, rows.drop_last()), rows.last(), k);
        assert(rows.drop_last().push(rows.last()) =~= rows);
    }
}

/// Whether every row carries the same visited stamp `c`.
pub open spec fn all_stamped(rows: Seq<SortRow>, c: int) -> bool {
    forall|i: int| 0 <= i < rows.len() ==> (#[trigger] rows[i]).0 == c
}

proof fn lemma_insert_same_stamp(s: Seq<SortRow>, x: SortRow)
    requires
        all_stamped(s, x.0),
    ensures
        insert_desc(Order::Visited, s, x) == insert_desc(Order::Recency, s, x),
        all_stamped(insert_desc(Order::Recency, s, x), x.0),
    decreases s.len(),
{
    if s.len() > 0 {
        let rest = s.drop_last();
        assert(all_stamped(rest, x.0)) by {
            assert forall|i: int| 0 <= i < rest.len() implies (#[trigger] rest[i]).0 == x.0 by {
                assert(rest[i] == s[i]);
            }
        }
        assert(s.last() == s[s.len() - 1]);
        lemma_insert_same_stamp(rest, x);
    }
}

proof fn lemma_sort_same_stamp(rows: Seq<SortRow>, c: int)
    requires
        all_stamped(rows, c),
    ensures
        sort_desc(Order::Visited, rows) == sort_desc(Order::Recency, rows),
        all_stamped(sort_desc(Order::Recency, rows), c),
    decreases rows.len(),
{
    if rows.len() > 0 {
        let rest = rows.drop_last();
        assert(all_stamped(rest, c)) by {
            assert forall|i: int| 0 <= i < rest.len() implies (#[trigger] rest[i]).0 == c by {
                assert(rest[i] == rows[i]);
            }
        }
        lemma_sort_same_stamp(rest, c);
        assert(rows.last() == rows[rows.len() - 1]);
        lemma_insert_same_stamp(sort_desc(Order::Recency, rest), rows.last());
    }
}

/// Visited order is never worse than recency: when no window carries a stamp
/// of its own (every row has the same one, as on a server that has recorded
/// nothing), it reads exactly as recency.
pub proof fn visited_reads_as_recency_when_nothing_is_recorded(raw: Seq<char>, c: int)
    requires
        all_stamped(visited_rows(raw), c),
    ensures
        strip_window_keys_of(raw, Order::Visited) == strip_window_keys_of(raw, Order::Recency),
{
    lemma_sort_same_stamp(visited_rows(raw), c);
}

/// A row as the code holds it: the three keys and the rest of the line.
pub type KeyedRow = (i64, i64, i64, Vec<char>);

/// The [`SortRow`] a [`KeyedRow`] stands for.
pub open spec fn keyed_view(r: KeyedRow) -> SortRow {
    (r.0 as int, r.1 as int, r.2 as int, r.3@)
}

/// The [`SortRow`]s a sequence of [`KeyedRow`]s stands for.
pub open spec fn keyed_views(s: Seq<KeyedRow>) -> Seq<SortRow> {
    s.map_values(|r: KeyedRow| keyed_view(r))
}

/// The leading numeric key of `line` (0 when it has none) and what follows it.
fn read_key(line: &Vec<char>) -> (r: (i64, Vec<char>))
    ensures
        r.0 as int == key_of(line@),
        r.1@ == after_key(line@),
{
    match split_once_chars(line, ' ') {
        Some((a, rest)) => match parse_i64_chars(&a) {
            Some(k) => (k, rest),
            None => (0, dup(line)),
        },
        None => (0, dup(line)),
    }
}

/// A line read as its keys and the rest: with a leading visited stamp when
/// `stamped` ([`visited_row`]), without one otherwise ([`sort_row`]).
fn read_row(line: &Vec<char>, stamped: bool) -> (r: KeyedRow)
    ensures
        keyed_view(r) == if stamped {
            visited_row(line@)
        } else {
            sort_row(line@)
        },
{
    if stamped {
        let (seen, rest) = read_key(line);
        let (a, rest2) = read_key(&rest);
        let (b, text) = read_key(&rest2);
        (seen, a, b, text)
    } else {
        let (a, rest) = read_key(line);
        let (b, text) = read_key(&rest);
        (0, a, b, text)
    }
}

/// The non-empty lines of `raw` read as rows ([`visited_rows`] when
/// `stamped`, [`sort_rows`] otherwise).
fn read_rows(raw: &str, stamped: bool) -> (rows: Vec<KeyedRow>)
    ensures
        keyed_views(rows@) == if stamped {
            visited_rows(raw@)
        } else {
            sort_rows(raw@)
        },
{
    let v = chars_of(raw);
    let ls = lines_of(&v);
    let ghost ne = |l: Seq<char>| l.len() > 0;
    let ghost read = |l: Seq<char>| if stamped {
        visited_row(l)
    } else {
        sort_row(l)
    };
    let mut rows: Vec<KeyedRow> = Vec::new();
    let n = ls.len();
    for i in 0..n
        invariant
            n == ls.len(),
            views(ls@) == lines(raw@),
            ne == (|l: Seq<char>| l.len() > 0),
            read == (|l: Seq<char>| if stamped {
                visited_row(l)
            } else {
                sort_row(l)
            }),
            keyed_views(rows@) == views(ls@).take(i as int).filter(ne).map_values(read),
    {
        let ghost prefix = views(ls@).take(i + 1);
        proof {
            reveal_with_fuel(Seq::filter, 1);
            assert(prefix.drop_last() =~= views(ls@).take(i as int));
            assert(prefix.last() == ls@[i as int]@);
        }
        if ls[i].len() > 0 {
            let r = read_row(&ls[i], stamped);
            let ghost prev = rows@;
            rows.push(r);
            assert(keyed_views(rows@) =~= keyed_views(prev).push(keyed_view(r)));
        }
        assert(keyed_views(rows@) =~= prefix.filter(ne).map_values(read));
    }
    assert(views(ls@).take(n as int) =~= views(ls@));
    proof {
        if stamped {
            assert(views(ls@).filter(ne).map_values(read) =~= visited_rows(raw@));
        } else {
            assert(views(ls@).filter(ne).map_values(read) =~= sort_rows(raw@));
        }
    }
    rows
}

proof fn lemma_insert_at(mode: Order, s: Seq<SortRow>, x: SortRow, j: int)
    requires
        0 <= j <= s.len(),
        forall|t: int| j <= t < s.len() ==> ranks_below(mode, #[trigger] s[t], x),
        j == 0 || !ranks_below(mode, s[j - 1], x),
    ensures
        insert_desc(mode, s, x) == s.insert(j, x),
    decreases s.len(),
{
    if s.len() == j {
        if s.len() == 0 {
            assert(s.insert(j, x) =~= seq![x]);
        } else {
            assert(s.insert(j, x) =~= s.push(x));
        }
    } else {
        let rest = s.drop_last();
        assert forall|t: int| j <= t < rest.len() implies ranks_below(
            mode,
            #[trigger] rest[t],
            x,
        ) by {
            assert(rest[t] == s[t]);
        }
        if j > 0 {
            assert(rest[j - 1] == s[j - 1]);
        }
        lemma_insert_at(mode, rest, x, j);
        assert(s.last() == s[s.len() - 1]);
        assert(rest.insert(j, x).push(s.last()) =~= s.insert(j, x));
    }
}

/// Whether `a` ranks strictly below `b` in order `mode` ([`ranks_below`]).
fn below(mode: Order, a: &KeyedRow, b: &KeyedRow) -> (r: bool)
    ensures
        r == ranks_below(mode, keyed_view(*a), keyed_view(*b)),
{
    let recency = a.1 < b.1 || (a.1 == b.1 && a.2 < b.2);
    match mode {
        Order::Visited => a.0 < b.0 || (a.0 == b.0 && recency),
        _ => recency,
    }
}

/// Places `x` into `sorted` ([`insert_desc`]).
fn insert_row(mode: Order, sorted: &mut Vec<KeyedRow>, x: KeyedRow)
    ensures
        keyed_views(final(sorted)@) == insert_desc(mode, keyed_views(old(sorted)@), keyed_view(x)),
{
    let n = sorted.len();
    let mut j = n;
    while j > 0 && below(mode, &sorted[j - 1], &x)
        invariant
            n == sorted.len(),
            j <= n,
            forall|t: int|
                j <= t < n ==> ranks_below(mode, keyed_view(#[trigger] sorted@[t]), keyed_view(x)),
        decreases j,
    {
        j = j - 1;
    }
    let ghost before = keyed_views(sorted@);
    proof {
        assert forall|t: int| j <= t < before.len() implies ranks_below(
            mode,
            #[trigger] before[t],
            keyed_view(x),
        ) by {
            assert(before[t] == keyed_view(sorted@[t]));
        }
        if j > 0 {
            assert(before[j - 1] == keyed_view(sorted@[j - 1]));
        }
        lemma_insert_at(mode, before, keyed_view(x), j as int);
    }
    let ghost xv = keyed_view(x);
    sorted.insert(j, x);
    assert(keyed_views(sorted@) =~= before.insert(j as int, xv));
}

/// The rows sorted in order `mode` ([`sort_desc`]).
fn sorted_rows(mode: Order, rows: &Vec<KeyedRow>) -> (sorted: Vec<KeyedRow>)
    ensures
        keyed_views(sorted@) == sort_desc(mode, keyed_views(rows@)),
{
    let mut sorted: Vec<KeyedRow> = Vec::new();
    let m = rows.len();
    let ghost all = keyed_views(rows@);
    assert(all.take(0) =~= Seq::<SortRow>::empty());
    for k in 0..m
        invariant
            m == rows.len(),
            all == keyed_views(rows@),
            keyed_views(sorted@) == sort_desc(mode, all.take(k as int)),
    {
        let x = (rows[k].0, rows[k].1, rows[k].2, dup(&rows[k].3));
        assert(keyed_view(x) == all[k as int]);
        insert_row(mode, &mut sorted, x);
        assert(all.take(k + 1).drop_last() =~= all.take(k as int));
    }
    assert(all.take(m as int) =~= all);
    sorted
}

/// The rows ordered as `mode` asks, their texts joined by newlines.
fn ordered_text(mode: Order, rows: Vec<KeyedRow>) -> (out: String)
    ensures
        out@ == join(row_texts(ordered_rows(keyed_views(rows@), mode)), seq!['\n']),
{
    let ordered = if mode == Order::Session {
        rows
    } else {
        sorted_rows(mode, &rows)
    };
    let mut texts: Vec<Vec<char>> = Vec::new();
    let m = ordered.len();
    for i in 0..m
        invariant
            m == ordered.len(),
            views(texts@) == row_texts(keyed_views(ordered@)).take(i as int),
    {
        let t = dup(&ordered[i].3);
        let ghost prev = texts@;
        texts.push(t);
        assert(views(texts@) =~= views(prev).push(t@));
        assert(row_texts(keyed_views(ordered@)).take(i + 1) =~= row_texts(
            keyed_views(ordered@),
        ).take(i as int).push(t@));
    }
    assert(row_texts(keyed_views(ordered@)).take(m as int) =~= row_texts(keyed_views(ordered@)));
    let sep = vec!['\n'];
    let joined = join_chars(&texts, &sep);
    assert(sep@ =~= seq!['\n']);
    string_of(&joined)
}

/// Strip the two leading numeric sort keys (activity, last-attached time) off
/// every non-empty line of `raw`, ordering the rows by `mode`. A field is a key
/// only when it is a number; otherwise the key is 0 and the field stays in the
/// row. Recency sorts by activity, then by last-attached time, most recent
/// first, and keeps tied rows in their listing order (so does visited, as these
/// rows carry no stamps); session order leaves tmux's listing order alone. The
/// rows come back joined by newlines.
pub fn strip_sort_keys(raw: &str, mode: Order) -> (out: String)
    ensures
        out@ == strip_sort_keys_of(raw@, mode),
{
    let rows = read_rows(raw, false);
    ordered_text(mode, rows)
}

/// Strip the three leading numeric sort keys (visited stamp, activity,
/// last-attached time) off every non-empty line of `raw`, ordering the rows by
/// `mode`: visited ranks by the stamp and falls back to recency for windows
/// with equal stamps (those never visited), recency ignores the stamp, session
/// keeps the listing order. Ties keep their listing order.
pub fn strip_window_keys(raw: &str, mode: Order) -> (out: String)
    ensures
        out@ == strip_window_keys_of(raw@, mode),
{
    let rows = read_rows(raw, true);
    ordered_text(mode, rows)
}

/// In visited order a row visited more recently (a higher stamp) ranks above
/// one visited earlier, whatever their activity; only rows with the same stamp
/// fall back to recency.
pub proof fn higher_stamps_rank_higher(a: SortRow, b: SortRow)
    ensures
        a.0 < b.0 ==> ranks_below(Order::Visited, a, b),
        a.0 > b.0 ==> !ranks_below(Order::Visited, a, b),
        a.0 == b.0 ==> ranks_below(Order::Visited, a, b) == ranks_below(Order::Recency, a, b),
{
}

/// In recency order older activity ranks below newer, whatever the stamps and
/// attach times; equal activity is decided by the session's last-attached time.
pub proof fn older_activity_ranks_lower(mode: Order, a: SortRow, b: SortRow)
    requires
        mode != Order::Visited,
    ensures
        a.1 < b.1 ==> ranks_below(mode, a, b),
        a.1 > b.1 ==> !ranks_below(mode, a, b),
        a.1 == b.1 ==> (ranks_below(mode, a, b) <==> a.2 < b.2),
{
}

/// The visited order lists stamps from highest to lowest: a row never comes
/// after one with a lower stamp.
pub proof fn visited_order_puts_higher_stamps_first(rows: Seq<SortRow>, i: int, j: int)
    requires
        0 <= i < j < sort_desc(Order::Visited, rows).len(),
    ensures
        sort_desc(Order::Visited, rows)[i].0 >= sort_desc(Order::Visited, rows)[j].0,
{
    sort_is_stable_descending(Order::Visited, rows, rows[0]);
    let s = sort_desc(Order::Visited, rows);
    assert(!ranks_below(Order::Visited, s[i], s[j]));
}

/// The recency order lists activity from newest to oldest: a row never comes
/// after one with older activity.
pub proof fn recency_order_puts_newer_activity_first(rows: Seq<SortRow>, i: int, j: int)
    requires
        0 <= i < j < sort_desc(Order::Recency, rows).len(),
    ensures
        sort_desc(Order::Recency, rows)[i].1 >= sort_desc(Order::Recency, rows)[j].1,
{
    sort_is_stable_descending(Order::Recency, rows, rows[0]);
    let s = sort_desc(Order::Recency, rows);
    assert(!ranks_below(Order::Recency, s[i], s[j]));
}

proof fn lemma_leading_key_of_number(a: nat, rest: Seq<char>)
    requires
        a <= i64::MAX,
    ensures
        leading_key(decimal(a) + seq![' '] + rest) == Some((a as int, rest)),
{
    let d = decimal(a);
    let line = d + seq![' '] + rest;
    decimal_is_the_digits_of_n(a);
    parsing_a_written_number_gives_it_back(a);
    assert forall|j: int| 0 <= j < d.len() implies line[j] != ' ' by {
        assert(line[j] == d[j]);
        assert(is_digit(d[j]));
    }
    assert(line[d.len() as int] == ' ');
    lemma_first_index(line, ' ', d.len() as int);
    assert(line.take(d.len() as int) =~= d);
    assert(line.skip((d.len() + 1) as int) =~= rest);
}

proof fn lemma_key_of_number(a: nat, rest: Seq<char>)
    requires
        a <= i64::MAX,
    ensures
        key_of(decimal(a) + seq![' '] + rest) == a,
        after_key(decimal(a) + seq![' '] + rest) == rest,
{
    lemma_leading_key_of_number(a, rest);
}

/// Numeric keys written in front of a row are read back as written and
/// stripped, leaving the rest of the row as it was.
pub proof fn numeric_keys_are_read_and_stripped(seen: nat, a: nat, b: nat, text: Seq<char>)
    requires
        seen <= i64::MAX,
        a <= i64::MAX,
        b <= i64::MAX,
    ensures
        sort_row(decimal(a) + seq![' '] + (decimal(b) + seq![' '] + text)) == (
            0int,
            a as int,
            b as int,
            text,
        ),
        visited_row(
            decimal(seen) + seq![' '] + (decimal(a) + seq![' '] + (decimal(b) + seq![' '] + text)),
        ) == (seen as int, a as int, b as int, text),
{
    let after_b = decimal(b) + seq![' '] + text;
    let after_a = decimal(a) + seq![' '] + after_b;
    let whole = decimal(seen) + seq![' '] + after_a;
    lemma_key_of_number(b, text);
    lemma_key_of_number(a, after_b);
    lemma_key_of_number(seen, after_a);
}

/// A leading field that is not a number is no key: it counts as 0 and stays
/// in the row. So a row whose first field is no number keeps all of its text,
/// and a row with one numeric key keeps everything after it.
pub proof fn a_field_that_is_no_number_stays(line: Seq<char>)
    ensures
        leading_key(line) is None ==> sort_row(line) == (0int, 0int, 0int, line),
        leading_key(line) matches Some((k, r)) ==> (leading_key(r) is None ==> sort_row(line) == (
            0int,
            k,
            0int,
            r,
        )),
{
}

} // verus!
