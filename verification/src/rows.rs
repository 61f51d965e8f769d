//! The window list: ordering rows by recency, marking alarms, dropping the
//! alarm columns, aligning the columns, and hoisting the current window.

use vstd::multiset::Multiset;
use vstd::prelude::*;

use crate::order::Order;
use crate::sorting::{strip_window_keys, strip_window_keys_of};
use crate::text::{
    chars_eq, chars_of, dup, first_index, is_ws, join, join_chars, lemma_first_index, lines,
    lines_of, split, split_chars, string_of, string_views, trim_end, views,
};

verus! {

/// A tab-separated line without its last two columns (the alarm fields).
pub open spec fn without_alarm_cols(l: Seq<char>) -> Seq<char> {
    let cols = split(l, '\t');
    let keep = if cols.len() >= 2 {
        cols.len() - 2
    } else {
        0
    };
    join(cols.take(keep), seq!['\t'])
}

/// What [`drop_alarm_cols`] returns for `body`.
pub open spec fn drop_alarm_cols_of(body: Seq<char>) -> Seq<char> {
    join(lines(body).map_values(|l: Seq<char>| without_alarm_cols(l)), seq!['\n'])
}

/// Every line of `body` without its two trailing alarm columns, which are for
/// [`mark_alerts`] and not for the eye.
pub fn drop_alarm_cols(body: &str) -> (out: String)
    ensures
        out@ == drop_alarm_cols_of(body@),
{
    let v = chars_of(body);
    let ls = lines_of(&v);
    let tab = vec!['\t'];
    assert(tab@ =~= seq!['\t']);
    let mut outs: Vec<Vec<char>> = Vec::new();
    let n = ls.len();
    for i in 0..n
        invariant
            n == ls.len(),
            views(ls@) == lines(body@),
            tab@ == seq!['\t'],
            views(outs@) == views(ls@).take(i as int).map_values(
                |l: Seq<char>| without_alarm_cols(l),
            ),
    {
        let mut cols = split_chars(&ls[i], '\t');
        let len = cols.len();
        let keep = if len >= 2 {
            len - 2
        } else {
            0
        };
        let ghost all = views(cols@);
        cols.truncate(keep);
        assert(views(cols@) =~= all.take(keep as int));
        let row = join_chars(&cols, &tab);
        let ghost prev = outs@;
        outs.push(row);
        assert(views(outs@) =~= views(prev).push(row@));
        assert(views(ls@).take(i + 1).map_values(|l: Seq<char>| without_alarm_cols(l)) =~= views(
            ls@,
        ).take(i as int).map_values(|l: Seq<char>| without_alarm_cols(l)).push(
            without_alarm_cols(ls@[i as int]@),
        ));
    }
    assert(views(ls@).take(n as int) =~= views(ls@));
    let nl = vec!['\n'];
    assert(nl@ =~= seq!['\n']);
    let joined = join_chars(&outs, &nl);
    string_of(&joined)
}

/// The state marker for a row's flag and option columns: bell outranks
/// silence, silence outranks activity, and a window with its monitors armed
/// but nothing raised is waiting. `None`: no alarm at all.
pub open spec fn alert_state(flags: Seq<char>, armed: Seq<char>) -> Option<Seq<char>> {
    if flags.len() >= 1 && flags[0] == '1' {
        Some("[!]"@)
    } else if flags.len() >= 2 && flags[1] == '1' {
        Some("[~]"@)
    } else if flags.len() >= 3 && flags[2] == '1' {
        Some("[*]"@)
    } else if armed.contains('1') {
        Some("[.]"@)
    } else {
        None
    }
}

/// A row led by its state and stripped of the alarm columns, or `None` when
/// the window carries no alarm (or the row has fewer than two columns).
pub open spec fn alert_row(l: Seq<char>) -> Option<Seq<char>> {
    let cols = split(l, '\t');
    if cols.len() < 2 {
        None
    } else {
        match alert_state(cols[cols.len() - 2], cols.last()) {
            Some(st) => Some(join(seq![st] + cols.take(cols.len() - 2), seq!['\t'])),
            None => None,
        }
    }
}

/// What [`mark_alerts`] returns for `body`.
pub open spec fn mark_alerts_of(body: Seq<char>) -> Seq<char> {
    join(lines(body).filter_map(|l: Seq<char>| alert_row(l)), seq!['\n'])
}

/// The state marker of a row (see [`alert_state`]).
fn state_of(flags: &Vec<char>, armed: &Vec<char>) -> (r: Option<Vec<char>>)
    ensures
        match r {
            Some(s) => alert_state(flags@, armed@) == Some(s@),
            None => alert_state(flags@, armed@) is None,
        },
{
    let n = flags.len();
    if n >= 1 && flags[0] == '1' {
        Some(chars_of("[!]"))
    } else if n >= 2 && flags[1] == '1' {
        Some(chars_of("[~]"))
    } else if n >= 3 && flags[2] == '1' {
        Some(chars_of("[*]"))
    } else if crate::text::has_char(armed, '1') {
        Some(chars_of("[.]"))
    } else {
        None
    }
}

/// Keep only the windows carrying an alarm, each row led by its state: `[!]`
/// bell, `[~]` stopped (silence), `[*]` running (activity), `[.]` armed but not
/// yet tripped. The two trailing alarm columns are dropped.
pub fn mark_alerts(body: &str) -> (out: String)
    ensures
        out@ == mark_alerts_of(body@),
{
    let v = chars_of(body);
    let ls = lines_of(&v);
    let tab = vec!['\t'];
    assert(tab@ =~= seq!['\t']);
    let mut outs: Vec<Vec<char>> = Vec::new();
    let n = ls.len();
    for i in 0..n
        invariant
            n == ls.len(),
            views(ls@) == lines(body@),
            tab@ == seq!['\t'],
            views(outs@) == views(ls@).take(i as int).filter_map(|l: Seq<char>| alert_row(l)),
    {
        let ghost prefix = views(ls@).take(i + 1);
        assert(prefix.drop_last() =~= views(ls@).take(i as int));
        assert(prefix.last() == ls@[i as int]@);
        let cols = split_chars(&ls[i], '\t');
        let len = cols.len();
        if len >= 2 {
            match state_of(&cols[len - 2], &cols[len - 1]) {
                Some(st) => {
                    let mut lead: Vec<Vec<char>> = Vec::new();
                    lead.push(st);
                    let mut k: usize = 0;
                    while k < len - 2
                        invariant
                            len == cols.len(),
                            len >= 2,
                            k <= len - 2,
                            views(lead@) == seq![st@] + views(cols@).take(k as int),
                        decreases len - 2 - k,
                    {
                        let c = dup(&cols[k]);
                        let ghost prev = lead@;
                        lead.push(c);
                        assert(views(lead@) =~= views(prev).push(c@));
                        assert(views(cols@).take(k + 1) =~= views(cols@).take(k as int).push(
                            cols@[k as int]@,
                        ));
                        assert(views(lead@) =~= seq![st@] + views(cols@).take(k + 1));
                        k = k + 1;
                    }
                    let row = join_chars(&lead, &tab);
                    let ghost prev = outs@;
                    outs.push(row);
                    assert(views(outs@) =~= views(prev) + seq![row@]);
                    assert(views(cols@)[len - 2] == cols@[len - 2]@);
                },
                None => {
                    assert(views(cols@)[len - 2] == cols@[len - 2]@);
                },
            }
        }
        assert(views(outs@) == prefix.filter_map(|l: Seq<char>| alert_row(l)));
    }
    assert(views(ls@).take(n as int) =~= views(ls@));
    let nl = vec!['\n'];
    assert(nl@ =~= seq!['\n']);
    let joined = join_chars(&outs, &nl);
    string_of(&joined)
}


/// The views of a sequence of rows of cells.
pub open spec fn table_views(t: Seq<Vec<Vec<char>>>) -> Seq<Seq<Seq<char>>> {
    t.map_values(|r: Vec<Vec<char>>| views(r@))
}

/// The non-empty lines of `body`, each cut into its tab-separated cells.
pub open spec fn table(body: Seq<char>) -> Seq<Seq<Seq<char>>> {
    lines(body).filter(|l: Seq<char>| l.len() > 0).map_values(|l: Seq<char>| split(l, '\t'))
}

/// The most cells any row has.
pub open spec fn max_cols(rows: Seq<Seq<Seq<char>>>) -> nat
    decreases rows.len(),
{
    if rows.len() == 0 {
        0
    } else {
        let m = max_cols(rows.drop_last());
        if rows.last().len() > m {
            rows.last().len()
        } else {
            m
        }
    }
}

/// The widest cell, in characters, in column `i`.
pub open spec fn col_width(rows: Seq<Seq<Seq<char>>>, i: int) -> nat
    decreases rows.len(),
{
    if rows.len() == 0 {
        0
    } else {
        let w = col_width(rows.drop_last(), i);
        let c = if 0 <= i < rows.last().len() {
            rows.last()[i].len()
        } else {
            0
        };
        if c > w {
            c
        } else {
            w
        }
    }
}

/// `n` spaces.
pub open spec fn spaces(n: nat) -> Seq<char> {
    Seq::new(n, |k: int| ' ')
}

/// Cell `i` of row `r` as laid out: padded with spaces to its column's width,
/// except the row's last cell, which runs free.
pub open spec fn laid_cell(rows: Seq<Seq<Seq<char>>>, r: Seq<Seq<char>>, i: int) -> Seq<char> {
    if i + 1 < r.len() {
        let w = col_width(rows, i);
        let pad: nat = if w >= r[i].len() {
            (w - r[i].len()) as nat
        } else {
            0
        };
        r[i] + spaces(pad)
    } else {
        r[i]
    }
}

/// A row laid out: its cells padded and joined by two spaces.
pub open spec fn laid_row(rows: Seq<Seq<Seq<char>>>, r: Seq<Seq<char>>) -> Seq<char> {
    join(Seq::new(r.len(), |i: int| laid_cell(rows, r, i)), "  "@)
}

/// What [`align_columns`] returns for `body`.
pub open spec fn align_columns_of(body: Seq<char>) -> Seq<char> {
    let rows = table(body);
    join(rows.map_values(|r: Seq<Seq<char>>| laid_row(rows, r)), seq!['\n'])
}

proof fn lemma_max_cols(rows: Seq<Seq<Seq<char>>>, j: int)
    requires
        0 <= j < rows.len(),
    ensures
        rows[j].len() <= max_cols(rows),
    decreases rows.len(),
{
    if j < rows.len() - 1 {
        lemma_max_cols(rows.drop_last(), j);
    }
}

/// Pad the tab-separated columns of the non-empty lines of `body` to a common
/// width and join them with two spaces; rows are joined by newlines. The last
/// cell of each row is never padded, so padding adds no trailing whitespace.
/// Width is counted in characters.
pub fn align_columns(body: &str) -> (out: String)
    ensures
        out@ == align_columns_of(body@),
{
    let v = chars_of(body);
    let ls = lines_of(&v);
    let ghost ne = |l: Seq<char>| l.len() > 0;
    let ghost cut = |l: Seq<char>| split(l, '\t');
    let mut rows: Vec<Vec<Vec<char>>> = Vec::new();
    let n = ls.len();
    for i in 0..n
        invariant
            n == ls.len(),
            views(ls@) == lines(body@),
            ne == (|l: Seq<char>| l.len() > 0),
            cut == (|l: Seq<char>| split(l, '\t')),
            table_views(rows@) == views(ls@).take(i as int).filter(ne).map_values(cut),
    {
        let ghost prefix = views(ls@).take(i + 1);
        proof {
            reveal_with_fuel(Seq::filter, 1);
            assert(prefix.drop_last() =~= views(ls@).take(i as int));
            assert(prefix.last() == ls@[i as int]@);
        }
        if ls[i].len() > 0 {
            let cells = split_chars(&ls[i], '\t');
            let ghost prev = rows@;
            rows.push(cells);
            assert(table_views(rows@) =~= table_views(prev).push(views(cells@)));
        }
        assert(table_views(rows@) =~= prefix.filter(ne).map_values(cut));
    }
    assert(views(ls@).take(n as int) =~= views(ls@));
    let ghost t = table_views(rows@);
    assert(t == table(body@));
    let m = rows.len();
    // The number of columns.
    let mut cols: usize = 0;
    for j in 0..m
        invariant
            m == rows.len(),
            t == table_views(rows@),
            cols == max_cols(t.take(j as int)),
    {
        assert(t.take(j + 1).drop_last() =~= t.take(j as int));
        assert(t.take(j + 1).last() == views(rows@[j as int]@));
        if rows[j].len() > cols {
            cols = rows[j].len();
        }
    }
    assert(t.take(m as int) =~= t);
    // The width of each column.
    let mut w: Vec<usize> = Vec::new();
    for i in 0..cols
        invariant
            w.len() == i,
            forall|k: int| 0 <= k < i ==> w@[k] == 0,
    {
        w.push(0);
    }
    assert(t.take(0) =~= Seq::<Seq<Seq<char>>>::empty());
    for j in 0..m
        invariant
            m == rows.len(),
            t == table_views(rows@),
            cols == max_cols(t),
            w.len() == cols,
            forall|k: int| 0 <= k < cols ==> w@[k] == col_width(t.take(j as int), k),
    {
        let ghost tj = t.take(j + 1);
        assert(tj.drop_last() =~= t.take(j as int));
        assert(tj.last() == views(rows@[j as int]@));
        proof {
            lemma_max_cols(t, j as int);
        }
        let r = &rows[j];
        let len = r.len();
        for c in 0..len
            invariant
                len == r.len(),
                len <= cols,
                w.len() == cols,
                tj.last() == views(r@),
                forall|k: int|
                    0 <= k < cols ==> w@[k] == if k < c {
                        if r@[k]@.len() > col_width(tj.drop_last(), k) {
                            r@[k]@.len()
                        } else {
                            col_width(tj.drop_last(), k)
                        }
                    } else {
                        col_width(tj.drop_last(), k)
                    },
        {
            let cl = r[c].len();
            if cl > w[c] {
                w.set(c, cl);
            }
        }
        assert forall|k: int| 0 <= k < cols implies w@[k] == col_width(tj, k) by {
            if k < len {
                assert(tj.last()[k] == r@[k]@);
            }
        }
    }
    assert(t.take(m as int) =~= t);
    // Lay out each row.
    let mut laid: Vec<Vec<char>> = Vec::new();
    let gap = vec![' ', ' '];
    proof {
        reveal_strlit("  ");
        assert(gap@ =~= "  "@);
    }
    for j in 0..m
        invariant
            m == rows.len(),
            t == table_views(rows@),
            cols == max_cols(t),
            w.len() == cols,
            gap@ == "  "@,
            forall|k: int| 0 <= k < cols ==> w@[k] == col_width(t, k),
            views(laid@) == t.take(j as int).map_values(|r: Seq<Seq<char>>| laid_row(t, r)),
    {
        proof {
            lemma_max_cols(t, j as int);
        }
        let r = &rows[j];
        let len = r.len();
        let ghost rv = views(r@);
        assert(rv == t[j as int]);
        let mut cells: Vec<Vec<char>> = Vec::new();
        for c in 0..len
            invariant
                len == r.len(),
                len <= cols,
                w.len() == cols,
                rv == views(r@),
                forall|k: int| 0 <= k < cols ==> w@[k] == col_width(t, k),
                views(cells@) == Seq::new(c as nat, |i: int| laid_cell(t, rv, i)),
        {
            let mut cell = dup(&r[c]);
            assert(rv[c as int] == r@[c as int]@);
            assert(w@[c as int] == col_width(t, c as int));
            if c + 1 < len {
                let cl = cell.len();
                let pad: usize = if w[c] >= cl {
                    w[c] - cl
                } else {
                    0
                };
                let ghost base = cell@;
                for _k in 0..pad
                    invariant
                        cell@ == base + spaces(_k as nat),
                {
                    cell.push(' ');
                    assert(cell@ =~= base + spaces((_k + 1) as nat));
                }
            }
            assert(cell@ =~= laid_cell(t, rv, c as int));
            let ghost prev = cells@;
            cells.push(cell);
            assert(views(cells@) =~= views(prev).push(cell@));
            assert(views(cells@) =~= Seq::new((c + 1) as nat, |i: int| laid_cell(t, rv, i)));
        }
        let row = join_chars(&cells, &gap);
        assert(views(cells@) =~= Seq::new(rv.len(), |i: int| laid_cell(t, rv, i)));
        assert(row@ == laid_row(t, rv));
        let ghost prev = laid@;
        laid.push(row);
        assert(views(laid@) =~= views(prev).push(row@));
        assert(views(laid@) =~= t.take(j + 1).map_values(|r: Seq<Seq<char>>| laid_row(t, r)));
    }
    assert(t.take(m as int) =~= t);
    let nl = vec!['\n'];
    assert(nl@ =~= seq!['\n']);
    let joined = join_chars(&laid, &nl);
    string_of(&joined)
}


/// The rows with the first one equal to `cur` moved to the front; unchanged
/// when no row is `cur`.
pub open spec fn hoisted(rows: Seq<Seq<char>>, cur: Seq<char>) -> Seq<Seq<char>> {
    match first_index(rows, cur) {
        Some(i) => seq![cur] + rows.remove(i),
        None => rows,
    }
}

/// What [`current_first`] returns.
pub open spec fn current_first_of(ordered: Seq<char>, cur: Seq<char>) -> Seq<char> {
    join(hoisted(lines(ordered), cur), seq!['\n'])
}

proof fn lemma_col_width_covers(rows: Seq<Seq<Seq<char>>>, j: int, i: int)
    requires
        0 <= j < rows.len(),
        0 <= i < rows[j].len(),
    ensures
        rows[j][i].len() <= col_width(rows, i),
    decreases rows.len(),
{
    if j < rows.len() - 1 {
        lemma_col_width_covers(rows.drop_last(), j, i);
    }
}

proof fn lemma_join_ends_with_last<T>(parts: Seq<Seq<T>>, sep: Seq<T>)
    requires
        parts.len() >= 1,
    ensures
        join(parts, sep).len() >= parts.last().len(),
        join(parts, sep).skip((join(parts, sep).len() - parts.last().len()) as int) == parts.last(),
{
    let j = join(parts, sep);
    if parts.len() == 1 {
        assert(j.skip(0) =~= j);
    } else {
        let front = join(parts.drop_last(), sep) + sep;
        assert(j == front + parts.last());
        assert(j.skip(front.len() as int) =~= parts.last());
    }
}

proof fn lemma_join_starts_with_first<T>(parts: Seq<Seq<T>>, sep: Seq<T>)
    requires
        parts.len() >= 2,
    ensures
        join(parts, sep).len() >= parts[0].len() + sep.len(),
        join(parts, sep).take((parts[0].len() + sep.len()) as int) == parts[0] + sep,
    decreases parts.len(),
{
    let j = join(parts, sep);
    let k = (parts[0].len() + sep.len()) as int;
    if parts.len() == 2 {
        assert(parts.drop_last() =~= seq![parts[0]]);
        assert(join(parts.drop_last(), sep) == parts[0]);
        assert(j.take(k) =~= parts[0] + sep);
    } else {
        let d = parts.drop_last();
        lemma_join_starts_with_first(d, sep);
        assert(d[0] == parts[0]);
        let front = join(d, sep);
        assert(j == front + sep + parts.last());
        assert(j.take(k) =~= front.take(k));
    }
}

/// Columns line up: every cell but a row's last is padded to exactly its
/// column's width, and keeps its own text in front of the padding.
pub proof fn aligned_cells_share_their_column_width(rows: Seq<Seq<Seq<char>>>, j: int, i: int)
    requires
        0 <= j < rows.len(),
        0 <= i,
        i + 1 < rows[j].len(),
    ensures
        laid_cell(rows, rows[j], i).len() == col_width(rows, i),
        laid_cell(rows, rows[j], i).take(rows[j][i].len() as int) == rows[j][i],
{
    lemma_col_width_covers(rows, j, i);
    let c = rows[j][i];
    assert(laid_cell(rows, rows[j], i).take(c.len() as int) =~= c);
}

/// A laid-out row ends with its last cell, unpadded: alignment adds no
/// trailing whitespace.
pub proof fn the_last_cell_runs_free(rows: Seq<Seq<Seq<char>>>, r: Seq<Seq<char>>)
    requires
        r.len() >= 1,
    ensures
        laid_row(rows, r).len() >= r.last().len(),
        laid_row(rows, r).skip((laid_row(rows, r).len() - r.last().len()) as int) == r.last(),
{
    let cells = Seq::new(r.len(), |i: int| laid_cell(rows, r, i));
    assert(cells.last() == r.last());
    lemma_join_ends_with_last(cells, "  "@);
}

/// A laid-out row of two or more cells starts with its first cell and then a
/// space, so padding never glues the first field (the window target) to the
/// next one.
pub proof fn the_first_field_stays_apart(rows: Seq<Seq<Seq<char>>>, r: Seq<Seq<char>>)
    requires
        r.len() >= 2,
    ensures
        laid_row(rows, r).len() > r[0].len(),
        laid_row(rows, r).take(r[0].len() as int) == r[0],
        laid_row(rows, r)[r[0].len() as int] == ' ',
{
    reveal_strlit("  ");
    let cells = Seq::new(r.len(), |i: int| laid_cell(rows, r, i));
    let first = cells[0];
    lemma_join_starts_with_first(cells, "  "@);
    let row = laid_row(rows, r);
    assert(row.take((first.len() + 2) as int) == first + "  "@);
    assert(first.take(r[0].len() as int) =~= r[0]);
    assert(row.take(r[0].len() as int) =~= row.take((first.len() + 2) as int).take(r[0].len() as int));
    assert(row[r[0].len() as int] == row.take((first.len() + 2) as int)[r[0].len() as int]);
    if first.len() > r[0].len() {
        assert(first[r[0].len() as int] == ' ');
    } else {
        assert(("  "@)[0] == ' ');
    }
}

proof fn lemma_table_cells_avoid_newline(body: Seq<char>, j: int, k: int)
    requires
        0 <= j < table(body).len(),
        0 <= k < table(body)[j].len(),
    ensures
        !table(body)[j][k].contains('\n'),
{
    let ne = |l: Seq<char>| l.len() > 0;
    let f = lines(body).filter(ne);
    let l = f[j];
    assert(table(body)[j] == split(l, '\t'));
    assert(f.contains(l));
    lines(body).lemma_filter_contains_rev(ne, l);
    let t = choose|t: int| 0 <= t < lines(body).len() && lines(body)[t] == l;
    crate::text::lemma_lines_have_no_newline(body, t);
    let cell = table(body)[j][k];
    if cell.contains('\n') {
        let m = choose|m: int| 0 <= m < cell.len() && cell[m] == '\n';
        crate::text::lemma_split_pieces(l, '\t', k, m);
    }
}

/// No line of the aligned output ends in whitespace, provided no row's last
/// cell is empty or ends in whitespace: padding never trails.
pub proof fn aligned_lines_have_no_trailing_whitespace(body: Seq<char>, i: int)
    requires
        forall|j: int|
            0 <= j < table(body).len() ==> (#[trigger] table(body)[j]).last().len() > 0
                && !is_ws(table(body)[j].last().last()),
        0 <= i < lines(align_columns_of(body)).len(),
    ensures
        trim_end(lines(align_columns_of(body))[i]) == lines(align_columns_of(body))[i],
{
    reveal_strlit("  ");
    let rows = table(body);
    let laid = rows.map_values(|r: Seq<Seq<char>>| laid_row(rows, r));
    assert forall|j: int| 0 <= j < laid.len() implies {
        &&& !(#[trigger] laid[j]).contains('\n')
        &&& laid[j].len() > 0
        &&& laid[j].last() == rows[j].last().last()
    } by {
        let r = rows[j];
        crate::text::lemma_split_len(
            lines(body).filter(|l: Seq<char>| l.len() > 0)[j],
            '\t',
        );
        assert(r.len() >= 1);
        let cells = Seq::new(r.len(), |k: int| laid_cell(rows, r, k));
        assert forall|k: int| 0 <= k < cells.len() implies !(#[trigger] cells[k]).contains(
            '\n',
        ) by {
            lemma_table_cells_avoid_newline(body, j, k);
            let c = cells[k];
            if c.contains('\n') {
                let m = choose|m: int| 0 <= m < c.len() && c[m] == '\n';
                if m < r[k].len() {
                    assert(c[m] == r[k][m]);
                }
            }
        }
        assert(!("  "@).contains('\n'));
        crate::text::lemma_join_avoids(cells, "  "@, '\n');
        the_last_cell_runs_free(rows, r);
        let row = laid_row(rows, r);
        let tail = row.skip((row.len() - r.last().len()) as int);
        assert(tail[tail.len() - 1] == row[row.len() - 1]);
    }
    assert forall|j: int| 0 <= j < laid.len() implies (#[trigger] laid[j]).len() == 0
        || laid[j].last() != '\r' by {
        assert(is_ws('\r'));
    }
    crate::text::lemma_lines_of_join(laid);
    let l = laid[i];
    assert(!is_ws(l.last()));
}

/// The position of the first line equal to `c`.
fn find_line(ls: &Vec<Vec<char>>, c: &Vec<char>) -> (r: Option<usize>)
    ensures
        match r {
            Some(i) => first_index(views(ls@), c@) == Some(i as int),
            None => first_index(views(ls@), c@) is None,
        },
{
    let n = ls.len();
    for i in 0..n
        invariant
            n == ls.len(),
            forall|j: int| 0 <= j < i ==> views(ls@)[j] != c@,
    {
        if chars_eq(&ls[i], c) {
            proof {
                lemma_first_index(views(ls@), c@, i as int);
            }
            return Some(i);
        }
        assert(views(ls@)[i as int] == ls@[i as int]@);
    }
    assert(!views(ls@).contains(c@));
    None
}

/// Appends copies of `ls[from..to]` to `out`.
fn push_lines(out: &mut Vec<Vec<char>>, ls: &Vec<Vec<char>>, from: usize, to: usize)
    requires
        from <= to <= ls.len(),
    ensures
        views(final(out)@) == views(old(out)@) + views(ls@).subrange(from as int, to as int),
{
    for j in from..to
        invariant
            from <= to <= ls.len(),
            views(out@) == views(old(out)@) + views(ls@).subrange(from as int, j as int),
    {
        let l = dup(&ls[j]);
        let ghost prev = out@;
        out.push(l);
        assert(views(out@) =~= views(prev).push(l@));
        assert(views(ls@).subrange(from as int, j + 1) =~= views(ls@).subrange(
            from as int,
            j as int,
        ).push(ls@[j as int]@));
    }
}

/// Hoist the current window's line to the front of `ordered`, every other line
/// keeping its order. A `cur` that matches no whole line changes nothing: it is
/// never invented.
pub fn current_first(ordered: &str, cur: &str) -> (out: String)
    ensures
        out@ == current_first_of(ordered@, cur@),
{
    let v = chars_of(ordered);
    let c = chars_of(cur);
    let ls = lines_of(&v);
    let n = ls.len();
    let ghost rows = views(ls@);
    let mut out: Vec<Vec<char>> = Vec::new();
    match find_line(&ls, &c) {
        Some(k) => {
            proof {
                crate::text::lemma_first_index_some(rows, c@);
            }
            out.push(dup(&c));
            assert(views(out@) =~= seq![c@]);
            push_lines(&mut out, &ls, 0, k);
            push_lines(&mut out, &ls, k + 1, n);
            assert(views(out@) =~= seq![c@] + rows.remove(k as int));
        },
        None => {
            push_lines(&mut out, &ls, 0, n);
            assert(views(out@) =~= rows);
        },
    }
    let nl = vec!['\n'];
    assert(nl@ =~= seq!['\n']);
    let joined = join_chars(&out, &nl);
    string_of(&joined)
}

/// Hoisting is idempotent: a current window already first stays put.
pub proof fn hoisting_is_idempotent(rows: Seq<Seq<char>>, cur: Seq<char>)
    ensures
        hoisted(hoisted(rows, cur), cur) == hoisted(rows, cur),
{
    crate::text::lemma_first_index_some(rows, cur);
    if let Some(i) = first_index(rows, cur) {
        let h = seq![cur] + rows.remove(i);
        crate::text::lemma_first_index(h, cur, 0);
        assert(seq![cur] + h.remove(0) =~= h);
    }
}

/// Hoisting moves no row but `cur`'s: it puts `cur` first when some row is
/// `cur`, keeps every other row in its order, and loses or adds nothing.
pub proof fn hoisting_keeps_the_rest(rows: Seq<Seq<char>>, cur: Seq<char>)
    ensures
        rows.contains(cur) ==> hoisted(rows, cur)[0] == cur,
        !rows.contains(cur) ==> hoisted(rows, cur) == rows,
        hoisted(rows, cur).to_multiset() == rows.to_multiset(),
{
    broadcast use vstd::seq_lib::group_to_multiset_ensures;

    crate::text::lemma_first_index_some(rows, cur);
    if let Some(i) = first_index(rows, cur) {
        let h = seq![cur] + rows.remove(i);
        rows.remove_ensures(i);
        vstd::seq_lib::lemma_multiset_commutative(seq![cur], rows.remove(i));
        assert(seq![cur].to_multiset() =~= Multiset::singleton(cur)) by {
            assert(seq![cur] =~= Seq::<Seq<char>>::empty().push(cur));
            assert(Seq::<Seq<char>>::empty().to_multiset() =~= Multiset::empty());
        }
        assert(rows.to_multiset() =~= rows.remove(i).to_multiset().insert(cur)) by {
            lemma_remove_multiset(rows, i);
        }
    }
}

/// Hoisting on text is idempotent wherever the hoisted list reads back as
/// itself (the lines of the result are the hoisted lines): hoisting the current
/// window a second time changes nothing. Where the result does not read back,
/// it can fail: `"a\n\nb"` hoisting `"b"` gives `"b\na\n"`, whose lines lose the
/// empty one, and hoisting again gives `"b\na"`.
pub proof fn current_first_is_idempotent(ordered: Seq<char>, cur: Seq<char>)
    requires
        lines(current_first_of(ordered, cur)) == hoisted(lines(ordered), cur),
    ensures
        current_first_of(current_first_of(ordered, cur), cur) == current_first_of(ordered, cur),
{
    hoisting_is_idempotent(lines(ordered), cur);
}

/// The hoisted list reads back as itself when every line of `ordered` is
/// non-empty and none ends in a carriage return.
pub proof fn clean_lines_read_back_after_hoisting(ordered: Seq<char>, cur: Seq<char>)
    requires
        forall|i: int|
            0 <= i < lines(ordered).len() ==> (#[trigger] lines(ordered)[i]).len() > 0
                && lines(ordered)[i].last() != '\r',
    ensures
        lines(current_first_of(ordered, cur)) == hoisted(lines(ordered), cur),
{
    let ls = lines(ordered);
    let h = hoisted(ls, cur);
    crate::text::lemma_first_index_some(ls, cur);
    // Every row of the hoisted list is a line of `ordered`.
    assert forall|k: int| 0 <= k < h.len() implies exists|t: int|
        0 <= t < ls.len() && ls[t] == #[trigger] h[k] by {
        if let Some(i) = first_index(ls, cur) {
            ls.remove_ensures(i);
            if k == 0 {
                assert(ls[i] == h[k]);
            } else if k - 1 < i {
                assert(ls[k - 1] == h[k]);
            } else {
                assert(ls[k] == h[k]);
            }
        } else {
            assert(ls[k] == h[k]);
        }
    }
    assert forall|k: int| 0 <= k < h.len() implies !(#[trigger] h[k]).contains('\n') && h[k].len()
        > 0 && h[k].last() != '\r' by {
        let t = choose|t: int| 0 <= t < ls.len() && ls[t] == h[k];
        crate::text::lemma_lines_have_no_newline(ordered, t);
    }
    if h.len() > 0 {
        assert(h.last() == h[h.len() - 1]);
    }
    crate::text::lemma_lines_of_join(h);
}

proof fn lemma_remove_multiset(s: Seq<Seq<char>>, i: int)
    requires
        0 <= i < s.len(),
    ensures
        s.to_multiset() == s.remove(i).to_multiset().insert(s[i]),
{
    broadcast use vstd::seq_lib::group_to_multiset_ensures;

    let a = s.take(i);
    let b = s.skip(i + 1);
    assert(s =~= a + seq![s[i]] + b);
    assert(s.remove(i) =~= a + b);
    vstd::seq_lib::lemma_multiset_commutative(a + seq![s[i]], b);
    vstd::seq_lib::lemma_multiset_commutative(a, seq![s[i]]);
    vstd::seq_lib::lemma_multiset_commutative(a, b);
    assert(seq![s[i]] =~= Seq::<Seq<char>>::empty().push(s[i]));
    assert(Seq::<Seq<char>>::empty().to_multiset() =~= Multiset::empty());
}


/// The `list-windows` format of the window list: three sort keys (the visited
/// stamp, 0 when the window has none), the target,
/// the displayed columns, then the alarm flags and options (TAB-separated).
pub const WINDOW_FORMAT: &'static str = "#{?#{@seen},#{@seen},0} #{window_activity} #{session_last_attached} #{session_name}:#{window_index}\t#{window_name}\t#{pane_title}\t[#{window_panes}p #{pane_current_command}]\t#{pane_current_path}\t#{window_bell_flag}#{window_silence_flag}#{window_activity_flag}\t#{monitor-activity}#{?#{monitor-silence},1,0}";

/// The tmux arguments that list every window for the window picker.
pub fn window_list_args() -> (args: Vec<String>)
    ensures
        string_views(args@) == seq!["list-windows"@, "-a"@, "-F"@, WINDOW_FORMAT@],
{
    let mut args: Vec<String> = Vec::new();
    args.push(String::from_str("list-windows"));
    args.push(String::from_str("-a"));
    args.push(String::from_str("-F"));
    args.push(String::from_str(WINDOW_FORMAT));
    assert(string_views(args@) =~= seq!["list-windows"@, "-a"@, "-F"@, WINDOW_FORMAT@]);
    args
}

/// What [`window_rows`] returns.
pub open spec fn window_rows_of(raw: Seq<char>, mode: Order, alerts: bool) -> Seq<char> {
    let body = strip_window_keys_of(raw, mode);
    align_columns_of(
        if alerts {
            mark_alerts_of(body)
        } else {
            drop_alarm_cols_of(body)
        },
    )
}

/// The rows the window picker shows for the `list-windows` output `raw`: keys
/// stripped in order `mode`, then either only the alarmed windows led by their
/// state (`alerts`) or every window without the alarm columns, aligned.
pub fn window_rows(raw: &str, mode: Order, alerts: bool) -> (out: String)
    ensures
        out@ == window_rows_of(raw@, mode, alerts),
{
    let body = strip_window_keys(raw, mode);
    let shown = if alerts {
        mark_alerts(body.as_str())
    } else {
        drop_alarm_cols(body.as_str())
    };
    align_columns(shown.as_str())
}

/// The alarm states, each from what tmux raised: a bell flag is `[!]`; a
/// silence flag without a bell is `[~]`; an activity flag alone is `[*]`; with
/// no flag raised, a window is kept as `[.]` exactly when some monitor is armed
/// (its option column holds a `1` anywhere), and dropped otherwise.
pub proof fn alarm_states_follow_the_flags(flags: Seq<char>, armed: Seq<char>)
    ensures
        flags.len() >= 1 && flags[0] == '1' ==> alert_state(flags, armed) == Some("[!]"@),
        !(flags.len() >= 1 && flags[0] == '1') && flags.len() >= 2 && flags[1] == '1'
            ==> alert_state(flags, armed) == Some("[~]"@),
        !(flags.len() >= 1 && flags[0] == '1') && !(flags.len() >= 2 && flags[1] == '1')
            && flags.len() >= 3 && flags[2] == '1' ==> alert_state(flags, armed) == Some(
            "[*]"@,
        ),
        !(flags.len() >= 1 && flags[0] == '1') && !(flags.len() >= 2 && flags[1] == '1') && !(
        flags.len() >= 3 && flags[2] == '1') ==> (armed.contains('1') ==> alert_state(
            flags,
            armed,
        ) == Some("[.]"@)) && (!armed.contains('1') ==> alert_state(flags, armed) is None),
{
}

/// An armed window with nothing raised stays in the alerts view, whichever
/// monitor is armed: a `1` at any place of the option column is enough.
pub proof fn any_armed_monitor_keeps_a_quiet_window(flags: Seq<char>, armed: Seq<char>, k: int)
    requires
        forall|i: int| 0 <= i < flags.len() && i < 3 ==> flags[i] != '1',
        0 <= k < armed.len(),
        armed[k] == '1',
    ensures
        alert_state(flags, armed) == Some("[.]"@),
{
    assert(armed.contains('1'));
}

proof fn lemma_pieces_avoid_sep(s: Seq<char>, sep: char, i: int)
    requires
        0 <= i < split(s, sep).len(),
    ensures
        !split(s, sep)[i].contains(sep),
{
    let q = split(s, sep)[i];
    if q.contains(sep) {
        let j = choose|j: int| 0 <= j < q.len() && q[j] == sep;
        crate::text::lemma_split_pieces(s, sep, i, j);
    }
}

/// The plain view shows every column of a row but the last two, the alarm
/// fields, unchanged and in order.
pub proof fn dropping_the_alarm_columns_keeps_the_others(l: Seq<char>)
    requires
        split(l, '\t').len() >= 3,
    ensures
        split(without_alarm_cols(l), '\t') == split(l, '\t').take(split(l, '\t').len() - 2),
{
    let cols = split(l, '\t');
    let kept = cols.take(cols.len() - 2);
    assert forall|i: int| 0 <= i < kept.len() implies !(#[trigger] kept[i]).contains('\t') by {
        lemma_pieces_avoid_sep(l, '\t', i);
    }
    crate::text::lemma_split_of_join(kept, '\t');
}

/// A row of the alerts view is its state marker followed by the row's shown
/// columns (all but the two alarm fields), unchanged and in order.
pub proof fn an_alert_row_is_its_state_then_the_shown_columns(l: Seq<char>)
    ensures
        alert_row(l) matches Some(row) ==> ({
            let cols = split(l, '\t');
            split(row, '\t') == seq![alert_state(cols[cols.len() - 2], cols.last())->0] + cols.take(
                cols.len() - 2,
            )
        }),
{
    reveal_strlit("[!]");
    reveal_strlit("[~]");
    reveal_strlit("[*]");
    reveal_strlit("[.]");
    let cols = split(l, '\t');
    if let Some(row) = alert_row(l) {
        let st = alert_state(cols[cols.len() - 2], cols.last())->0;
        let parts = seq![st] + cols.take(cols.len() - 2);
        assert(!st.contains('\t'));
        assert forall|i: int| 0 <= i < parts.len() implies !(#[trigger] parts[i]).contains('\t') by {
            if i > 0 {
                assert(parts[i] == cols[i - 1]);
                lemma_pieces_avoid_sep(l, '\t', i - 1);
            }
        }
        crate::text::lemma_split_of_join(parts, '\t');
    }
}

} // verus!
