//! Character-sequence primitives with the semantics of the `str` methods the
//! pickers are written in terms of (`split`, `lines`, `trim`, `parse`, ...).

use vstd::prelude::*;

use crate::trusted::push_char;

verus! {

/// The characters of `s`, in order.
pub fn chars_of(s: &str) -> (v: Vec<char>)
    ensures
        v@ == s@,
{
    let mut v: Vec<char> = Vec::new();
    for c in it: s.chars()
        invariant
            v@ == it.seq().take(it.index() as int),
    {
        v.push(c);
    }
    v
}

/// A `String` holding exactly the characters of `v`.
pub fn string_of(v: &Vec<char>) -> (s: String)
    ensures
        s@ == v@,
{
    let mut s = String::new();
    let n = v.len();
    for i in 0..n
        invariant
            n == v.len(),
            s@ == v@.take(i as int),
    {
        push_char(&mut s, v[i]);
        assert(v@.take(i + 1) == v@.take(i as int).push(v@[i as int]));
    }
    assert(v@.take(n as int) == v@);
    s
}


/// The pieces of `s` between occurrences of `sep`, as `str::split` yields them:
/// always at least one piece, empty pieces kept.
pub open spec fn split<T>(s: Seq<T>, sep: T) -> Seq<Seq<T>>
    decreases s.len(),
{
    if s.len() == 0 {
        seq![Seq::empty()]
    } else {
        let r = split(s.drop_last(), sep);
        if s.last() == sep {
            r.push(Seq::empty())
        } else {
            r.update(r.len() - 1, r.last().push(s.last()))
        }
    }
}

pub broadcast proof fn lemma_split_len<T>(s: Seq<T>, sep: T)
    ensures
        #[trigger] split(s, sep).len() >= 1,
    decreases s.len(),
{
    if s.len() > 0 {
        lemma_split_len(s.drop_last(), sep);
    }
}

/// `parts` glued together with `sep` between neighbours, as `join` does.
pub open spec fn join<T>(parts: Seq<Seq<T>>, sep: Seq<T>) -> Seq<T>
    decreases parts.len(),
{
    if parts.len() == 0 {
        Seq::empty()
    } else if parts.len() == 1 {
        parts[0]
    } else {
        join(parts.drop_last(), sep) + sep + parts.last()
    }
}

/// The views of a sequence of character vectors.
pub open spec fn views(v: Seq<Vec<char>>) -> Seq<Seq<char>> {
    v.map_values(|x: Vec<char>| x@)
}

/// The views of a sequence of byte vectors.
pub open spec fn byte_views(v: Seq<Vec<u8>>) -> Seq<Seq<u8>> {
    v.map_values(|x: Vec<u8>| x@)
}

/// The views of a sequence of strings.
pub open spec fn string_views(v: Seq<String>) -> Seq<Seq<char>> {
    v.map_values(|x: String| x@)
}

/// Appends every element of `src` to `out`.
pub fn extend<T: Copy>(out: &mut Vec<T>, src: &Vec<T>)
    ensures
        final(out)@ == old(out)@ + src@,
{
    let n = src.len();
    for i in 0..n
        invariant
            n == src.len(),
            out@ == old(out)@ + src@.take(i as int),
    {
        out.push(src[i]);
        assert(src@.take(i + 1) == src@.take(i as int).push(src@[i as int]));
    }
    assert(src@.take(n as int) == src@);
}

/// Splits a character sequence on every `sep`.
pub fn split_chars(v: &Vec<char>, sep: char) -> (parts: Vec<Vec<char>>)
    ensures
        views(parts@) == split(v@, sep),
{
    broadcast use lemma_split_len;
    let mut parts: Vec<Vec<char>> = Vec::new();
    let mut cur: Vec<char> = Vec::new();
    let n = v.len();
    for i in 0..n
        invariant
            n == v.len(),
            views(parts@).push(cur@) == split(v@.take(i as int), sep),
    {
        let c = v[i];
        proof {
            assert(v@.take(i + 1).drop_last() == v@.take(i as int));
            assert(v@.take(i + 1).last() == c);
        }
        if c == sep {
            let ghost prev = parts@;
            let done = cur;
            parts.push(done);
            cur = Vec::new();
            assert(views(parts@) =~= views(prev).push(done@));
        } else {
            cur.push(c);
        }
        assert(views(parts@).push(cur@) =~= split(v@.take(i + 1), sep));
    }
    assert(v@.take(n as int) == v@);
    let ghost before = parts@;
    parts.push(cur);
    assert(views(parts@) =~= views(before).push(cur@));
    parts
}


/// A copy of `v`.
pub fn dup<T: Copy>(v: &Vec<T>) -> (r: Vec<T>)
    ensures
        r@ == v@,
{
    let mut r: Vec<T> = Vec::new();
    extend(&mut r, v);
    r
}

/// The elements of `v` from `start` up to (not including) `end`.
pub fn slice_of<T: Copy>(v: &Vec<T>, start: usize, end: usize) -> (r: Vec<T>)
    requires
        start <= end <= v.len(),
    ensures
        r@ == v@.subrange(start as int, end as int),
{
    let mut r: Vec<T> = Vec::new();
    for i in start..end
        invariant
            start <= end <= v.len(),
            r@ == v@.subrange(start as int, i as int),
    {
        r.push(v[i]);
        assert(v@.subrange(start as int, i + 1) == v@.subrange(start as int, i as int).push(v@[i as int]));
    }
    r
}

/// `parts` joined with `sep` between neighbours.
pub fn join_chars(parts: &Vec<Vec<char>>, sep: &Vec<char>) -> (out: Vec<char>)
    ensures
        out@ == join(views(parts@), sep@),
{
    let mut out: Vec<char> = Vec::new();
    let n = parts.len();
    for i in 0..n
        invariant
            n == parts.len(),
            out@ == join(views(parts@).take(i as int), sep@),
    {
        proof {
            let t = views(parts@).take(i + 1);
            assert(t.drop_last() =~= views(parts@).take(i as int));
            assert(t.last() == parts@[i as int]@);
            if i == 0 {
                assert(views(parts@).take(0) =~= Seq::<Seq<char>>::empty());
            }
        }
        if i > 0 {
            extend(&mut out, sep);
        }
        extend(&mut out, &parts[i]);
        assert(out@ =~= join(views(parts@).take(i + 1), sep@));
    }
    assert(views(parts@).take(n as int) =~= views(parts@));
    out
}

/// Splits a byte sequence on every `sep`.
pub fn split_bytes(v: &[u8], sep: u8) -> (parts: Vec<Vec<u8>>)
    ensures
        byte_views(parts@) == split(v@, sep),
{
    broadcast use lemma_split_len;
    let mut parts: Vec<Vec<u8>> = Vec::new();
    let mut cur: Vec<u8> = Vec::new();
    let n = v.len();
    for i in 0..n
        invariant
            n == v@.len(),
            byte_views(parts@).push(cur@) == split(v@.take(i as int), sep),
    {
        let c = v[i];
        proof {
            assert(v@.take(i + 1).drop_last() == v@.take(i as int));
            assert(v@.take(i + 1).last() == c);
        }
        if c == sep {
            let ghost prev = parts@;
            let done = cur;
            parts.push(done);
            cur = Vec::new();
            assert(byte_views(parts@) =~= byte_views(prev).push(done@));
        } else {
            cur.push(c);
        }
        assert(byte_views(parts@).push(cur@) =~= split(v@.take(i + 1), sep));
    }
    assert(v@.take(n as int) == v@);
    let ghost before = parts@;
    parts.push(cur);
    assert(byte_views(parts@) =~= byte_views(before).push(cur@));
    parts
}

/// `parts` joined with the single byte `sep` between neighbours.
pub fn join_bytes(parts: &Vec<Vec<u8>>, sep: u8) -> (out: Vec<u8>)
    ensures
        out@ == join(byte_views(parts@), seq![sep]),
{
    let mut out: Vec<u8> = Vec::new();
    let n = parts.len();
    for i in 0..n
        invariant
            n == parts.len(),
            out@ == join(byte_views(parts@).take(i as int), seq![sep]),
    {
        proof {
            let t = byte_views(parts@).take(i + 1);
            assert(t.drop_last() =~= byte_views(parts@).take(i as int));
            assert(t.last() == parts@[i as int]@);
            if i == 0 {
                assert(byte_views(parts@).take(0) =~= Seq::<Seq<u8>>::empty());
            }
        }
        if i > 0 {
            out.push(sep);
        }
        extend(&mut out, &parts[i]);
        assert(out@ =~= join(byte_views(parts@).take(i + 1), seq![sep]));
    }
    assert(byte_views(parts@).take(n as int) =~= byte_views(parts@));
    out
}

/// A line with one trailing carriage return removed, as `str::lines` leaves it.
pub open spec fn strip_cr(l: Seq<char>) -> Seq<char> {
    if l.len() > 0 && l.last() == '\r' {
        l.drop_last()
    } else {
        l
    }
}

/// The lines of `s` as `str::lines` yields them: split at `\n`, a `\r` before a
/// `\n` dropped with it, and no empty line after a final `\n`.
pub open spec fn lines(s: Seq<char>) -> Seq<Seq<char>> {
    let p = split(s, '\n');
    let done = p.drop_last().map_values(|l: Seq<char>| strip_cr(l));
    if p.last().len() == 0 {
        done
    } else {
        done.push(p.last())
    }
}

/// The lines of `v` (see [`lines`]).
pub fn lines_of(v: &Vec<char>) -> (ls: Vec<Vec<char>>)
    ensures
        views(ls@) == lines(v@),
{
    let parts = split_chars(v, '\n');
    proof {
        lemma_split_len(v@, '\n');
    }
    let n = parts.len();
    let ghost p = split(v@, '\n');
    let mut out: Vec<Vec<char>> = Vec::new();
    for i in 0..n - 1
        invariant
            n == parts.len(),
            n >= 1,
            views(parts@) == p,
            views(out@) == p.take(i as int).map_values(|l: Seq<char>| strip_cr(l)),
    {
        let mut line = dup(&parts[i]);
        let len = line.len();
        if len > 0 && line[len - 1] == '\r' {
            line.pop();
        }
        let ghost prev = out@;
        out.push(line);
        proof {
            assert(p[i as int] == parts@[i as int]@);
            assert(views(out@) =~= views(prev).push(line@));
            assert(p.take(i + 1).map_values(|l: Seq<char>| strip_cr(l)) =~= p.take(
                i as int,
            ).map_values(|l: Seq<char>| strip_cr(l)).push(strip_cr(p[i as int])));
        }
    }
    assert(p.take(n - 1) =~= p.drop_last());
    if parts[n - 1].len() > 0 {
        let last = dup(&parts[n - 1]);
        let ghost prev = out@;
        out.push(last);
        assert(views(out@) =~= views(prev).push(last@));
    }
    out
}


/// Unicode `White_Space`, the property `char::is_whitespace` tests.
pub open spec fn is_ws(c: char) -> bool {
    let u = c as u32;
    ||| 9 <= u <= 13
    ||| u == 32
    ||| u == 0x85
    ||| u == 0xA0
    ||| u == 0x1680
    ||| 0x2000 <= u <= 0x200A
    ||| u == 0x2028
    ||| u == 0x2029
    ||| u == 0x202F
    ||| u == 0x205F
    ||| u == 0x3000
}

/// Whether `c` is whitespace ([`is_ws`]).
pub fn is_whitespace(c: char) -> (b: bool)
    ensures
        b == is_ws(c),
{
    let u = c as u32;
    (9 <= u && u <= 13) || u == 32 || u == 0x85 || u == 0xA0 || u == 0x1680 || (0x2000 <= u && u
        <= 0x200A) || u == 0x2028 || u == 0x2029 || u == 0x202F || u == 0x205F || u == 0x3000
}

/// `s` without its leading whitespace.
pub open spec fn trim_start(s: Seq<char>) -> Seq<char>
    decreases s.len(),
{
    if s.len() > 0 && is_ws(s[0]) {
        trim_start(s.drop_first())
    } else {
        s
    }
}

/// `s` without its trailing whitespace.
pub open spec fn trim_end(s: Seq<char>) -> Seq<char>
    decreases s.len(),
{
    if s.len() > 0 && is_ws(s.last()) {
        trim_end(s.drop_last())
    } else {
        s
    }
}

/// `s` without leading or trailing whitespace, as `str::trim` returns it.
pub open spec fn trim(s: Seq<char>) -> Seq<char> {
    trim_end(trim_start(s))
}

/// The bounds of `trim(v@)` within `v`.
pub fn trim_bounds(v: &Vec<char>) -> (r: (usize, usize))
    ensures
        r.0 <= r.1 <= v.len(),
        v@.subrange(r.0 as int, r.1 as int) == trim(v@),
{
    let n = v.len();
    let mut a: usize = 0;
    assert(v@.skip(0) =~= v@);
    while a < n && is_whitespace(v[a])
        invariant
            n == v.len(),
            a <= n,
            trim_start(v@) == trim_start(v@.skip(a as int)),
        decreases n - a,
    {
        assert(v@.skip(a as int).drop_first() =~= v@.skip(a + 1));
        a = a + 1;
    }
    assert(trim_start(v@.skip(a as int)) == v@.skip(a as int));
    let mut b: usize = n;
    assert(v@.skip(a as int) =~= v@.subrange(a as int, b as int));
    while b > a && is_whitespace(v[b - 1])
        invariant
            n == v.len(),
            a <= b <= n,
            trim(v@) == trim_end(v@.subrange(a as int, b as int)),
        decreases b - a,
    {
        assert(v@.subrange(a as int, b as int).drop_last() =~= v@.subrange(a as int, b - 1));
        b = b - 1;
    }
    (a, b)
}

/// `v` trimmed of surrounding whitespace.
pub fn trim_chars(v: &Vec<char>) -> (r: Vec<char>)
    ensures
        r@ == trim(v@),
{
    let (a, b) = trim_bounds(v);
    slice_of(v, a, b)
}

/// The pieces of `s` between whitespace characters, empty pieces kept.
pub open spec fn split_ws(s: Seq<char>) -> Seq<Seq<char>>
    decreases s.len(),
{
    if s.len() == 0 {
        seq![Seq::empty()]
    } else {
        let r = split_ws(s.drop_last());
        if is_ws(s.last()) {
            r.push(Seq::empty())
        } else {
            r.update(r.len() - 1, r.last().push(s.last()))
        }
    }
}

pub broadcast proof fn lemma_split_ws_len(s: Seq<char>)
    ensures
        #[trigger] split_ws(s).len() >= 1,
    decreases s.len(),
{
    if s.len() > 0 {
        lemma_split_ws_len(s.drop_last());
    }
}

/// The whitespace-separated words of `s`, as `str::split_whitespace` yields them.
pub open spec fn words(s: Seq<char>) -> Seq<Seq<char>> {
    split_ws(s).filter(|w: Seq<char>| w.len() > 0)
}

/// The words of `v` (see [`words`]).
pub fn words_of(v: &Vec<char>) -> (ws: Vec<Vec<char>>)
    ensures
        views(ws@) == words(v@),
{
    broadcast use lemma_split_ws_len;
    reveal_with_fuel(Seq::filter, 2);
    let mut out: Vec<Vec<char>> = Vec::new();
    let mut cur: Vec<char> = Vec::new();
    let n = v.len();
    let ghost ne = |w: Seq<char>| w.len() > 0;
    for i in 0..n
        invariant
            n == v.len(),
            ne == (|w: Seq<char>| w.len() > 0),
            views(out@) == split_ws(v@.take(i as int)).drop_last().filter(ne),
            split_ws(v@.take(i as int)).last() == cur@,
    {
        let c = v[i];
        proof {
            assert(v@.take(i + 1).drop_last() == v@.take(i as int));
            assert(v@.take(i + 1).last() == c);
        }
        let ghost prev_split = split_ws(v@.take(i as int));
        proof {
            lemma_split_ws_len(v@.take(i as int));
        }
        if is_whitespace(c) {
            proof {
                assert(split_ws(v@.take(i + 1)) == prev_split.push(Seq::empty()));
                assert(split_ws(v@.take(i + 1)).drop_last() =~= prev_split);
                assert(prev_split.drop_last().push(prev_split.last()) =~= prev_split);
                reveal_with_fuel(Seq::filter, 1);
                assert(prev_split.filter(ne) == (if ne(prev_split.last()) {
                    prev_split.drop_last().filter(ne).push(prev_split.last())
                } else {
                    prev_split.drop_last().filter(ne)
                }));
            }
            if cur.len() > 0 {
                let ghost prev = out@;
                let done = cur;
                out.push(done);
                assert(views(out@) =~= views(prev).push(done@));
            }
            cur = Vec::new();
        } else {
            cur.push(c);
            proof {
                assert(split_ws(v@.take(i + 1)).drop_last() =~= prev_split.drop_last());
            }
        }
    }
    assert(v@.take(n as int) == v@);
    proof {
        let sp = split_ws(v@);
        assert(sp.drop_last().push(sp.last()) =~= sp);
    }
    if cur.len() > 0 {
        let ghost prev = out@;
        out.push(cur);
        assert(views(out@) =~= views(prev).push(cur@));
    }
    out
}


/// The character of a decimal digit.
pub open spec fn digit_char(d: int) -> char {
    (48 + d) as char
}

/// The decimal representation of `n`, as `to_string` writes it.
pub open spec fn decimal(n: nat) -> Seq<char>
    decreases n,
{
    if n < 10 {
        seq![digit_char(n as int)]
    } else {
        decimal(n / 10).push(digit_char((n % 10) as int))
    }
}

/// Appends the decimal representation of `n` to `out`.
pub fn push_decimal(out: &mut Vec<char>, n: u64)
    ensures
        final(out)@ == old(out)@ + decimal(n as nat),
    decreases n,
{
    if n >= 10 {
        push_decimal(out, n / 10);
    }
    let d = (n % 10) as u8;
    let c = (48u8 + d) as char;
    assert(c == digit_char((n % 10) as int));
    out.push(c);
}

/// Whether `c` is an ASCII decimal digit.
pub open spec fn is_digit(c: char) -> bool {
    48 <= c as u32 <= 57
}

/// Whether `s` is nothing but decimal digits.
pub open spec fn all_digits(s: Seq<char>) -> bool {
    forall|i: int| 0 <= i < s.len() ==> is_digit(#[trigger] s[i])
}

/// The value of a run of decimal digits.
pub open spec fn digits_value(s: Seq<char>) -> int
    decreases s.len(),
{
    if s.len() == 0 {
        0
    } else {
        digits_value(s.drop_last()) * 10 + (s.last() as u32 - 48)
    }
}

pub proof fn lemma_digits_value_nonneg(s: Seq<char>)
    requires
        all_digits(s),
    ensures
        digits_value(s) >= 0,
    decreases s.len(),
{
    if s.len() > 0 {
        lemma_digits_value_nonneg(s.drop_last());
    }
}

/// What `i64::from_str` accepts, as a mathematical integer: an optional `+` or
/// `-` and then one or more decimal digits.
pub open spec fn signed_value(s: Seq<char>) -> Option<int> {
    if s.len() >= 2 && s[0] == '-' && all_digits(s.drop_first()) {
        Some(-digits_value(s.drop_first()))
    } else if s.len() >= 2 && s[0] == '+' && all_digits(s.drop_first()) {
        Some(digits_value(s.drop_first()))
    } else if s.len() >= 1 && all_digits(s) {
        Some(digits_value(s))
    } else {
        None
    }
}

/// What `usize::from_str` accepts, as a mathematical integer: an optional `+`
/// and then one or more decimal digits.
pub open spec fn unsigned_value(s: Seq<char>) -> Option<int> {
    if s.len() >= 2 && s[0] == '+' && all_digits(s.drop_first()) {
        Some(digits_value(s.drop_first()))
    } else if s.len() >= 1 && all_digits(s) {
        Some(digits_value(s))
    } else {
        None
    }
}

/// `s.parse::<i64>().ok()`.
pub open spec fn parse_i64(s: Seq<char>) -> Option<i64> {
    match signed_value(s) {
        Some(v) => if i64::MIN <= v <= i64::MAX {
            Some(v as i64)
        } else {
            None
        },
        None => None,
    }
}

/// `s.parse::<usize>().ok()`.
pub open spec fn parse_usize(s: Seq<char>) -> Option<usize> {
    match unsigned_value(s) {
        Some(v) => if v <= usize::MAX {
            Some(v as usize)
        } else {
            None
        },
        None => None,
    }
}

/// The value of the digits `v[start..]`, when they are one or more digits and
/// the value fits in a `u64`.
fn digits_u64(v: &Vec<char>, start: usize) -> (r: Option<u64>)
    requires
        start <= v.len(),
    ensures
        ({
            let d = v@.skip(start as int);
            r == if d.len() >= 1 && all_digits(d) && digits_value(d) <= u64::MAX {
                Some(digits_value(d) as u64)
            } else {
                None
            }
        }),
{
    let n = v.len();
    let ghost d = v@.skip(start as int);
    if start == n {
        return None;
    }
    let mut acc: u64 = 0;
    let mut big = false;
    for i in start..n
        invariant
            start <= n == v.len(),
            d == v@.skip(start as int),
            all_digits(v@.subrange(start as int, i as int)),
            !big ==> acc == digits_value(v@.subrange(start as int, i as int)),
            big ==> digits_value(v@.subrange(start as int, i as int)) > u64::MAX,
    {
        let c = v[i];
        let u = c as u32;
        if u < 48 || u > 57 {
            assert(!all_digits(d)) by {
                assert(d[i - start] == c);
            }
            return None;
        }
        let dg = (u - 48) as u64;
        let ghost p = v@.subrange(start as int, i as int);
        let ghost q = v@.subrange(start as int, i + 1);
        proof {
            assert(q.drop_last() =~= p);
            assert(q.last() == c);
            assert(all_digits(q)) by {
                assert forall|j: int| 0 <= j < q.len() implies is_digit(#[trigger] q[j]) by {
                    if j < p.len() {
                        assert(q[j] == p[j]);
                    }
                }
            }
            lemma_digits_value_nonneg(p);
        }
        if !big {
            if acc > (u64::MAX - dg) / 10 {
                big = true;
            } else {
                acc = acc * 10 + dg;
            }
        }
    }
    assert(v@.subrange(start as int, n as int) =~= d);
    if big {
        None
    } else {
        Some(acc)
    }
}

/// `v` parsed as `i64::from_str` does.
pub fn parse_i64_chars(v: &Vec<char>) -> (r: Option<i64>)
    ensures
        r == parse_i64(v@),
{
    let n = v.len();
    if n == 0 {
        return None;
    }
    let c = v[0];
    let neg = c == '-';
    let start: usize = if c == '-' || c == '+' { 1 } else { 0 };
    let ghost d = v@.skip(start as int);
    proof {
        if start == 1 {
            assert(d =~= v@.drop_first());
            assert(!is_digit(v@[0]));
            assert(!all_digits(v@));
        } else {
            assert(d =~= v@);
        }
    }
    match digits_u64(v, start) {
        None => {
            proof {
                if d.len() >= 1 && all_digits(d) {
                    lemma_digits_value_nonneg(d);
                }
            }
            None
        },
        Some(m) => {
            proof {
                lemma_digits_value_nonneg(d);
            }
            if neg {
                if m <= 9223372036854775808u64 {
                    if m == 9223372036854775808u64 {
                        Some(i64::MIN)
                    } else {
                        Some(-(m as i64))
                    }
                } else {
                    None
                }
            } else {
                if m <= 9223372036854775807u64 {
                    Some(m as i64)
                } else {
                    None
                }
            }
        },
    }
}

/// `v` parsed as `usize::from_str` does.
pub fn parse_usize_chars(v: &Vec<char>) -> (r: Option<usize>)
    ensures
        r == parse_usize(v@),
{
    let n = v.len();
    if n == 0 {
        return None;
    }
    let start: usize = if v[0] == '+' { 1 } else { 0 };
    let ghost d = v@.skip(start as int);
    proof {
        if start == 1 {
            assert(d =~= v@.drop_first());
            assert(!is_digit(v@[0]));
            assert(!all_digits(v@));
        } else {
            assert(d =~= v@);
        }
    }
    match digits_u64(v, start) {
        None => {
            proof {
                if d.len() >= 1 && all_digits(d) {
                    lemma_digits_value_nonneg(d);
                }
            }
            None
        },
        Some(m) => {
            proof {
                lemma_digits_value_nonneg(d);
            }
            if m as u128 <= usize::MAX as u128 {
                Some(m as usize)
            } else {
                None
            }
        },
    }
}


/// The position of the first `x` in `s`, if there is one.
pub open spec fn first_index<T>(s: Seq<T>, x: T) -> Option<int> {
    if s.contains(x) {
        Some(
            choose|i: int| 0 <= i < s.len() && s[i] == x && forall|j: int| 0 <= j < i ==> s[j] != x,
        )
    } else {
        None
    }
}

pub proof fn lemma_first_index<T>(s: Seq<T>, x: T, i: int)
    requires
        0 <= i < s.len(),
        s[i] == x,
        forall|j: int| 0 <= j < i ==> s[j] != x,
    ensures
        first_index(s, x) == Some(i),
{
    assert(s.contains(x));
    let k = choose|k: int| 0 <= k < s.len() && s[k] == x && forall|j: int| 0 <= j < k ==> s[j] != x;
    assert(0 <= k < s.len() && s[k] == x && forall|j: int| 0 <= j < k ==> s[j] != x);
    if k < i {
        assert(s[k] != x);
    }
    if k > i {
        assert(s[i] != x);
    }
}

/// `s` cut at its first `c`, as `str::split_once` does.
pub open spec fn split_once(s: Seq<char>, c: char) -> Option<(Seq<char>, Seq<char>)> {
    match first_index(s, c) {
        Some(i) => Some((s.take(i), s.skip(i + 1))),
        None => None,
    }
}

/// The position of the first `c` in `v`.
pub fn find_char(v: &Vec<char>, c: char) -> (r: Option<usize>)
    ensures
        match r {
            Some(i) => first_index(v@, c) == Some(i as int),
            None => first_index(v@, c) is None,
        },
{
    let n = v.len();
    for i in 0..n
        invariant
            n == v.len(),
            forall|j: int| 0 <= j < i ==> v@[j] != c,
    {
        if v[i] == c {
            proof {
                lemma_first_index(v@, c, i as int);
            }
            return Some(i);
        }
    }
    None
}

/// Whether `v` holds `c`.
pub fn has_char(v: &Vec<char>, c: char) -> (b: bool)
    ensures
        b == v@.contains(c),
{
    match find_char(v, c) {
        Some(i) => {
            assert(v@[i as int] == c) by {
                lemma_first_index_some(v@, c);
            }
            true
        },
        None => false,
    }
}

pub proof fn lemma_first_index_some<T>(s: Seq<T>, x: T)
    ensures
        first_index(s, x) is Some <==> s.contains(x),
        first_index(s, x) matches Some(i) ==> 0 <= i < s.len() && s[i] == x && forall|j: int|
            0 <= j < i ==> s[j] != x,
{
    if s.contains(x) {
        let w = choose|w: int| 0 <= w < s.len() && s[w] == x;
        lemma_least_index(s, x, w);
    }
}

proof fn lemma_least_index<T>(s: Seq<T>, x: T, w: int)
    requires
        0 <= w < s.len(),
        s[w] == x,
    ensures
        exists|i: int| 0 <= i < s.len() && s[i] == x && forall|j: int| 0 <= j < i ==> s[j] != x,
    decreases w,
{
    if exists|j: int| 0 <= j < w && s[j] == x {
        let j = choose|j: int| 0 <= j < w && s[j] == x;
        lemma_least_index(s, x, j);
    } else {
        assert(0 <= w < s.len() && s[w] == x && forall|j: int| 0 <= j < w ==> s[j] != x);
    }
}

/// `v` cut at its first `c`.
pub fn split_once_chars(v: &Vec<char>, c: char) -> (r: Option<(Vec<char>, Vec<char>)>)
    ensures
        match r {
            Some((a, b)) => split_once(v@, c) == Some((a@, b@)),
            None => split_once(v@, c) is None,
        },
{
    match find_char(v, c) {
        Some(i) => {
            proof {
                lemma_first_index_some(v@, c);
                assert(first_index(v@, c) == Some(i as int));
                assert(i < v.len());
            }
            let a = slice_of(v, 0, i);
            let b = slice_of(v, i + 1, v.len());
            assert(a@ =~= v@.take(i as int));
            assert(b@ =~= v@.skip(i + 1));
            Some((a, b))
        },
        None => None,
    }
}

/// Whether two character vectors hold the same characters.
pub fn chars_eq(a: &Vec<char>, b: &Vec<char>) -> (r: bool)
    ensures
        r == (a@ == b@),
{
    if a.len() != b.len() {
        return false;
    }
    let n = a.len();
    for i in 0..n
        invariant
            n == a.len() == b.len(),
            forall|j: int| 0 <= j < i ==> a@[j] == b@[j],
    {
        if a[i] != b[i] {
            return false;
        }
    }
    assert(a@ =~= b@);
    true
}

/// `s` without any trailing `c`, as `str::trim_end_matches(c)` leaves it.
pub open spec fn trim_end_char(s: Seq<char>, c: char) -> Seq<char>
    decreases s.len(),
{
    if s.len() > 0 && s.last() == c {
        trim_end_char(s.drop_last(), c)
    } else {
        s
    }
}


/// Splitting at a separator that joins two sequences splits each of them.
pub proof fn lemma_split_concat<T>(s: Seq<T>, sep: T, t: Seq<T>)
    ensures
        split(s + seq![sep] + t, sep) == split(s, sep) + split(t, sep),
    decreases t.len(),
{
    lemma_split_len(s, sep);
    if t.len() == 0 {
        assert(s + seq![sep] + t =~= s.push(sep));
        assert((s + seq![sep] + t).drop_last() =~= s);
        assert(split(s, sep).push(Seq::empty()) =~= split(s, sep) + split(t, sep));
    } else {
        let u = t.drop_last();
        let whole = s + seq![sep] + t;
        assert(whole.drop_last() =~= s + seq![sep] + u);
        assert(whole.last() == t.last());
        lemma_split_concat(s, sep, u);
        lemma_split_len(u, sep);
        let a = split(s, sep);
        let b = split(u, sep);
        if t.last() == sep {
            assert((a + b).push(Seq::empty()) =~= a + b.push(Seq::empty()));
        } else {
            assert((a + b).update((a + b).len() - 1, (a + b).last().push(t.last())) =~= a
                + b.update(b.len() - 1, b.last().push(t.last())));
        }
    }
}

/// A sequence without the separator is one piece.
pub proof fn lemma_split_without_sep<T>(s: Seq<T>, sep: T)
    requires
        !s.contains(sep),
    ensures
        split(s, sep) == seq![s],
    decreases s.len(),
{
    if s.len() > 0 {
        let d = s.drop_last();
        assert(!d.contains(sep)) by {
            if d.contains(sep) {
                let k = choose|k: int| 0 <= k < d.len() && d[k] == sep;
                assert(s[k] == sep);
            }
        }
        lemma_split_without_sep(d, sep);
        assert(s.last() == s[s.len() - 1]);
        assert(d.push(s.last()) =~= s);
        assert(seq![d].update(0, d.push(s.last())) =~= seq![d.push(s.last())]);
    } else {
        assert(s =~= Seq::<T>::empty());
    }
}

/// The pieces of a split hold no separator, and only elements of the whole.
pub proof fn lemma_split_pieces<T>(s: Seq<T>, sep: T, i: int, j: int)
    requires
        0 <= i < split(s, sep).len(),
        0 <= j < split(s, sep)[i].len(),
    ensures
        split(s, sep)[i][j] != sep,
        s.contains(split(s, sep)[i][j]),
    decreases s.len(),
{
    lemma_split_len(s, sep);
    if s.len() > 0 {
        let d = s.drop_last();
        let r = split(d, sep);
        lemma_split_len(d, sep);
        if s.last() == sep {
            assert(i < r.len());
            assert(split(s, sep)[i] == r[i]);
            lemma_split_pieces(d, sep, i, j);
            let k = choose|k: int| 0 <= k < d.len() && d[k] == r[i][j];
            assert(s[k] == d[k]);
        } else {
            if i < r.len() - 1 {
                assert(split(s, sep)[i] == r[i]);
                lemma_split_pieces(d, sep, i, j);
                let k = choose|k: int| 0 <= k < d.len() && d[k] == r[i][j];
                assert(s[k] == d[k]);
            } else {
                let q = r.last().push(s.last());
                assert(split(s, sep)[i] == q);
                if j < r.last().len() {
                    lemma_split_pieces(d, sep, r.len() - 1, j);
                    let k = choose|k: int| 0 <= k < d.len() && d[k] == r[r.len() - 1][j];
                    assert(s[k] == d[k]);
                } else {
                    assert(s[s.len() - 1] == s.last());
                }
            }
        }
    }
}

/// Joining parts that hold no `c` with a separator that holds none gives a
/// sequence without `c`.
pub proof fn lemma_join_avoids<T>(parts: Seq<Seq<T>>, sep: Seq<T>, c: T)
    requires
        !sep.contains(c),
        forall|i: int| 0 <= i < parts.len() ==> !(#[trigger] parts[i]).contains(c),
    ensures
        !join(parts, sep).contains(c),
    decreases parts.len(),
{
    if parts.len() >= 2 {
        let d = parts.drop_last();
        assert forall|i: int| 0 <= i < d.len() implies !(#[trigger] d[i]).contains(c) by {
            assert(d[i] == parts[i]);
        }
        lemma_join_avoids(d, sep, c);
        let j = join(d, sep) + sep + parts.last();
        assert(parts.last() == parts[parts.len() - 1]);
        if j.contains(c) {
            let k = choose|k: int| 0 <= k < j.len() && j[k] == c;
            let a = join(d, sep);
            if k < a.len() {
                assert(a[k] == c);
            } else if k < a.len() + sep.len() {
                assert(sep[k - a.len()] == c);
            } else {
                assert(parts.last()[k - a.len() - sep.len()] == c);
            }
        }
    } else if parts.len() == 1 {
        assert(!parts[0].contains(c));
    }
}

/// The lines of newline-joined parts are the parts again, when no part holds a
/// newline or ends with a carriage return and the last part is not empty.
pub proof fn lemma_lines_of_join(parts: Seq<Seq<char>>)
    requires
        forall|i: int| 0 <= i < parts.len() ==> !(#[trigger] parts[i]).contains('\n'),
        forall|i: int|
            0 <= i < parts.len() ==> (#[trigger] parts[i]).len() == 0 || parts[i].last() != '\r',
        parts.len() == 0 || parts.last().len() > 0,
    ensures
        lines(join(parts, seq!['\n'])) == parts,
{
    let j = join(parts, seq!['\n']);
    if parts.len() == 0 {
        assert(j =~= Seq::<char>::empty());
        assert(split(j, '\n') == seq![Seq::<char>::empty()]);
        assert(lines(j) =~= parts);
    } else {
        lemma_split_of_join(parts, '\n');
        let p = split(j, '\n');
        assert(p.drop_last().map_values(|l: Seq<char>| strip_cr(l)) =~= parts.drop_last());
        assert(p.last() == parts.last());
        assert(parts.drop_last().push(parts.last()) =~= parts);
    }
}

/// Splitting parts joined by a separator they do not hold gives the parts back.
pub proof fn lemma_split_of_join<T>(parts: Seq<Seq<T>>, sep: T)
    requires
        parts.len() >= 1,
        forall|i: int| 0 <= i < parts.len() ==> !(#[trigger] parts[i]).contains(sep),
    ensures
        split(join(parts, seq![sep]), sep) == parts,
    decreases parts.len(),
{
    if parts.len() == 1 {
        lemma_split_without_sep(parts[0], sep);
        assert(seq![parts[0]] =~= parts);
    } else {
        let d = parts.drop_last();
        assert forall|i: int| 0 <= i < d.len() implies !(#[trigger] d[i]).contains(sep) by {
            assert(d[i] == parts[i]);
        }
        lemma_split_of_join(d, sep);
        assert(parts.last() == parts[parts.len() - 1]);
        lemma_split_concat(join(d, seq![sep]), sep, parts.last());
        lemma_split_without_sep(parts.last(), sep);
        assert(d + seq![parts.last()] =~= parts);
    }
}

/// Joining the pieces of a split with the separator gives the whole back:
/// splitting loses nothing.
pub proof fn split_then_join_is_identity<T>(s: Seq<T>, sep: T)
    ensures
        join(split(s, sep), seq![sep]) == s,
    decreases s.len(),
{
    lemma_split_len(s, sep);
    if s.len() > 0 {
        let d = s.drop_last();
        let r = split(d, sep);
        lemma_split_len(d, sep);
        split_then_join_is_identity(d, sep);
        if s.last() == sep {
            let p = r.push(Seq::<T>::empty());
            assert(p.drop_last() =~= r);
            assert(join(p, seq![sep]) =~= d.push(sep));
        } else {
            lemma_join_update_last(r, seq![sep], s.last());
            assert(d.push(s.last()) =~= s);
        }
    } else {
        assert(join(seq![Seq::<T>::empty()], seq![sep]) =~= s);
    }
}

proof fn lemma_join_update_last<T>(r: Seq<Seq<T>>, sep: Seq<T>, x: T)
    requires
        r.len() >= 1,
    ensures
        join(r.update(r.len() - 1, r.last().push(x)), sep) == join(r, sep).push(x),
{
    let u = r.update(r.len() - 1, r.last().push(x));
    if r.len() == 1 {
        assert(u[0] == r[0].push(x));
    } else {
        assert(u.drop_last() =~= r.drop_last());
        assert(u.last() == r.last().push(x));
        assert(join(r.drop_last(), sep) + sep + r.last().push(x) =~= (join(r.drop_last(), sep) + sep
            + r.last()).push(x));
    }
}

/// The lines of `s` hold no newline.
pub proof fn lemma_lines_have_no_newline(s: Seq<char>, i: int)
    requires
        0 <= i < lines(s).len(),
    ensures
        !lines(s)[i].contains('\n'),
{
    let p = split(s, '\n');
    lemma_split_len(s, '\n');
    let l = lines(s)[i];
    if l.contains('\n') {
        let k = choose|k: int| 0 <= k < l.len() && l[k] == '\n';
        if i < p.len() - 1 {
            assert(l == strip_cr(p[i]));
            assert(l[k] == p[i][k]);
            lemma_split_pieces(s, '\n', i, k);
        } else {
            assert(l == p.last());
            lemma_split_pieces(s, '\n', p.len() - 1, k);
        }
    }
}

/// The decimal representation of `n` is one or more digits whose value is
/// `n`, with no leading zero.
pub proof fn decimal_is_the_digits_of_n(n: nat)
    ensures
        decimal(n).len() >= 1,
        all_digits(decimal(n)),
        digits_value(decimal(n)) == n,
        decimal(n)[0] == '0' ==> n == 0,
    decreases n,
{
    let d = decimal(n);
    if n < 10 {
        assert(d == seq![digit_char(n as int)]);
        assert(d.drop_last() =~= Seq::<char>::empty());
        assert((digit_char(n as int) as u32) == 48 + n);
        assert(d.last() == digit_char(n as int));
        assert(digits_value(d) == digits_value(d.drop_last()) * 10 + (d.last() as u32 - 48));
        assert(digits_value(d.drop_last()) == 0);
    } else {
        decimal_is_the_digits_of_n(n / 10);
        let q = decimal(n / 10);
        assert(d == q.push(digit_char((n % 10) as int)));
        assert(d.drop_last() =~= q);
        assert((digit_char((n % 10) as int) as u32) == 48 + n % 10);
        assert forall|i: int| 0 <= i < d.len() implies is_digit(#[trigger] d[i]) by {
            if i < q.len() {
                assert(d[i] == q[i]);
            }
        }
        assert(d[0] == q[0]);
        assert(n / 10 > 0);
        assert(n == (n / 10) * 10 + n % 10) by (nonlinear_arith);
        assert(digits_value(d) == digits_value(q) * 10 + (n % 10));
    }
}

/// Reading back a number written in decimal gives the number: parsing is the
/// inverse of formatting.
pub proof fn parsing_a_written_number_gives_it_back(n: nat)
    ensures
        n <= i64::MAX ==> parse_i64(decimal(n)) == Some(n as i64),
        n <= usize::MAX ==> parse_usize(decimal(n)) == Some(n as usize),
        n <= i64::MAX ==> parse_i64(seq!['-'] + decimal(n)) == Some((-n) as i64),
{
    decimal_is_the_digits_of_n(n);
    let d = decimal(n);
    assert(is_digit(d[0]));
    assert((seq!['-'] + d).drop_first() =~= d);
    assert((seq!['-'] + d)[0] == '-');
}

/// Trimming leaves neither leading nor trailing whitespace, and only removes
/// whitespace: what it keeps is a contiguous part of `s`.
pub proof fn trim_leaves_no_outer_whitespace(s: Seq<char>)
    ensures
        trim(s).len() > 0 ==> !is_ws(trim(s)[0]) && !is_ws(trim(s).last()),
        exists|a: int, b: int| 0 <= a <= b <= s.len() && trim(s) == s.subrange(a, b),
{
    lemma_trim_start(s);
    let t = trim_start(s);
    lemma_trim_end(t);
    let a = choose|a: int| 0 <= a <= s.len() && t == s.subrange(a, s.len() as int);
    let b = choose|b: int| 0 <= b <= t.len() && trim_end(t) == t.subrange(0, b);
    assert(trim(s) =~= s.subrange(a, a + b));
    if trim(s).len() > 0 {
        assert(trim(s)[0] == t[0]);
    }
}

proof fn lemma_trim_start(s: Seq<char>)
    ensures
        exists|a: int| 0 <= a <= s.len() && trim_start(s) == s.subrange(a, s.len() as int),
        trim_start(s).len() > 0 ==> !is_ws(trim_start(s)[0]),
    decreases s.len(),
{
    if s.len() > 0 && is_ws(s[0]) {
        lemma_trim_start(s.drop_first());
        let a = choose|a: int|
            0 <= a <= s.drop_first().len() && trim_start(s.drop_first()) == s.drop_first().subrange(
                a,
                s.drop_first().len() as int,
            );
        assert(s.drop_first().subrange(a, s.drop_first().len() as int) =~= s.subrange(
            a + 1,
            s.len() as int,
        ));
    } else {
        assert(s.subrange(0, s.len() as int) =~= s);
    }
}

proof fn lemma_trim_end(s: Seq<char>)
    ensures
        exists|b: int| 0 <= b <= s.len() && trim_end(s) == s.subrange(0, b),
        trim_end(s).len() > 0 ==> !is_ws(trim_end(s).last()),
    decreases s.len(),
{
    if s.len() > 0 && is_ws(s.last()) {
        lemma_trim_end(s.drop_last());
        let b = choose|b: int|
            0 <= b <= s.drop_last().len() && trim_end(s.drop_last()) == s.drop_last().subrange(0, b);
        assert(s.drop_last().subrange(0, b) =~= s.subrange(0, b));
    } else {
        assert(s.subrange(0, s.len() as int) =~= s);
    }
}

} // verus!
