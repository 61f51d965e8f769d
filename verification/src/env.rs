//! The pane shell's exported environment, as snapshotted per prompt by a
//! shell hook, read back so a capture window inherits it. Records are
//! NUL-delimited `NAME=VALUE`; the variables tied to the source pane or
//! terminal are never carried over.

use vstd::prelude::*;

use crate::text::{
    byte_views, chars_eq, chars_of, split, split_bytes, split_chars, string_of, string_views,
    views,
};
use crate::trusted::{lossy_string, utf8_lossy};

verus! {

/// Whether a variable belongs to the source pane or terminal, so inheriting
/// it would confuse the new window.
pub open spec fn denied(name: Seq<char>) -> bool {
    ||| name == "TMUX"@
    ||| name == "TMUX_PANE"@
    ||| name == "TMUX_TMPDIR"@
    ||| name == "TERM"@
    ||| name == "TERM_PROGRAM"@
    ||| name == "TERM_PROGRAM_VERSION"@
    ||| name == "WINDOWID"@
    ||| name == "SHLVL"@
    ||| name == "PWD"@
    ||| name == "OLDPWD"@
    ||| name == "COLUMNS"@
    ||| name == "LINES"@
    ||| name == "_"@
}

/// Whether `name` is on the denylist ([`denied`]).
fn is_denied(name: &Vec<char>) -> (b: bool)
    ensures
        b == denied(name@),
{
    chars_eq(name, &chars_of("TMUX")) || chars_eq(name, &chars_of("TMUX_PANE")) || chars_eq(
        name,
        &chars_of("TMUX_TMPDIR"),
    ) || chars_eq(name, &chars_of("TERM")) || chars_eq(name, &chars_of("TERM_PROGRAM"))
        || chars_eq(name, &chars_of("TERM_PROGRAM_VERSION")) || chars_eq(
        name,
        &chars_of("WINDOWID"),
    ) || chars_eq(name, &chars_of("SHLVL")) || chars_eq(name, &chars_of("PWD")) || chars_eq(
        name,
        &chars_of("OLDPWD"),
    ) || chars_eq(name, &chars_of("COLUMNS")) || chars_eq(name, &chars_of("LINES")) || chars_eq(
        name,
        &chars_of("_"),
    )
}

/// The name of a decoded record: everything before its first `=`.
pub open spec fn record_name(kv: Seq<char>) -> Seq<char> {
    split(kv, '=')[0]
}

/// Whether a decoded record is carried over: its name is not empty and not
/// on the denylist.
pub open spec fn kept(kv: Seq<char>) -> bool {
    record_name(kv).len() > 0 && !denied(record_name(kv))
}

/// A chunk decoded as a record, or `None` when it is not [`kept`].
pub open spec fn record_of(chunk: Seq<u8>) -> Option<Seq<char>> {
    let kv = utf8_lossy(chunk);
    if kept(kv) {
        Some(kv)
    } else {
        None
    }
}

/// Whether the decoded record `kv` is carried over ([`kept`]).
pub fn keeps_record(kv: &str) -> (b: bool)
    ensures
        b == kept(kv@),
{
    let kvc = chars_of(kv);
    let pieces = split_chars(&kvc, '=');
    proof {
        crate::text::lemma_split_len(kvc@, '=');
    }
    assert(views(pieces@)[0] == pieces@[0]@);
    pieces[0].len() > 0 && !is_denied(&pieces[0])
}

/// What [`parse`] returns for `bytes`.
pub open spec fn parse_of(bytes: Seq<u8>) -> Seq<Seq<char>> {
    split(bytes, 0u8).filter(|c: Seq<u8>| c.len() > 0).filter_map(|c: Seq<u8>| record_of(c))
}

/// Parse NUL-delimited `NAME=VALUE` records, dropping empty chunks and any
/// record whose name is empty or on the denylist. Each record is decoded as
/// UTF-8, invalid sequences replaced.
pub fn parse(bytes: &[u8]) -> (records: Vec<String>)
    ensures
        string_views(records@) == parse_of(bytes@),
{
    let chunks = split_bytes(bytes, 0u8);
    let ghost ne = |c: Seq<u8>| c.len() > 0;
    let ghost dec = |c: Seq<u8>| record_of(c);
    let mut out: Vec<String> = Vec::new();
    let n = chunks.len();
    for i in 0..n
        invariant
            n == chunks.len(),
            byte_views(chunks@) == split(bytes@, 0u8),
            ne == (|c: Seq<u8>| c.len() > 0),
            dec == (|c: Seq<u8>| record_of(c)),
            string_views(out@) == byte_views(chunks@).take(i as int).filter(ne).filter_map(dec),
    {
        let ghost prefix = byte_views(chunks@).take(i + 1);
        let ghost chunk = chunks@[i as int]@;
        proof {
            reveal_with_fuel(Seq::filter, 1);
            assert(prefix.drop_last() =~= byte_views(chunks@).take(i as int));
            assert(prefix.last() == chunk);
        }
        if chunks[i].len() > 0 {
            let kv = lossy_string(chunks[i].as_slice());
            let ghost pre = byte_views(chunks@).take(i as int).filter(ne);
            assert(prefix.filter(ne) == pre.push(chunk));
            assert(pre.push(chunk).drop_last() =~= pre);
            if keeps_record(kv.as_str()) {
                let ghost prev = out@;
                out.push(kv);
                assert(string_views(out@) =~= string_views(prev) + seq![kv@]);
            }
        }
    }
    assert(byte_views(chunks@).take(n as int) =~= byte_views(chunks@));
    out
}

/// A denylisted name never comes out of [`parse`], nor an empty one.
pub proof fn parsed_records_are_never_denied(bytes: Seq<u8>, i: int)
    requires
        0 <= i < parse_of(bytes).len(),
    ensures
        record_name(parse_of(bytes)[i]).len() > 0,
        !denied(record_name(parse_of(bytes)[i])),
{
    let cs = split(bytes, 0u8).filter(|c: Seq<u8>| c.len() > 0);
    lemma_decoded_records(cs, i);
}

proof fn lemma_decoded_records(cs: Seq<Seq<u8>>, i: int)
    requires
        0 <= i < cs.filter_map(|c: Seq<u8>| record_of(c)).len(),
    ensures
        record_name(cs.filter_map(|c: Seq<u8>| record_of(c))[i]).len() > 0,
        !denied(record_name(cs.filter_map(|c: Seq<u8>| record_of(c))[i])),
    decreases cs.len(),
{
    let f = |c: Seq<u8>| record_of(c);
    if cs.len() > 0 {
        let rest = cs.drop_last().filter_map(f);
        match record_of(cs.last()) {
            Some(r) => {
                if i < rest.len() {
                    lemma_decoded_records(cs.drop_last(), i);
                    assert(cs.filter_map(f)[i] == rest[i]);
                }
            },
            None => {
                lemma_decoded_records(cs.drop_last(), i);
            },
        }
    }
}

proof fn lemma_filter_map_add<A, B>(a: Seq<A>, b: Seq<A>, f: spec_fn(A) -> Option<B>)
    ensures
        (a + b).filter_map(f) == a.filter_map(f) + b.filter_map(f),
    decreases b.len(),
{
    if b.len() == 0 {
        assert(a + b =~= a);
        assert(a.filter_map(f) + b.filter_map(f) =~= a.filter_map(f));
    } else {
        lemma_filter_map_add(a, b.drop_last(), f);
        assert((a + b).drop_last() =~= a + b.drop_last());
        assert((a + b).last() == b.last());
        match f(b.last()) {
            Some(x) => {
                assert(a.filter_map(f) + b.drop_last().filter_map(f) + seq![x] =~= a.filter_map(f)
                    + (b.drop_last().filter_map(f) + seq![x]));
            },
            None => {},
        }
    }
}

/// Snapshots concatenate: the records of two NUL-joined snapshots are the
/// records of the first followed by those of the second.
pub proof fn parsing_joined_snapshots_joins_their_records(a: Seq<u8>, b: Seq<u8>)
    ensures
        parse_of(a + seq![0u8] + b) == parse_of(a) + parse_of(b),
{
    let ne = |c: Seq<u8>| c.len() > 0;
    let f = |c: Seq<u8>| record_of(c);
    crate::text::lemma_split_concat(a, 0u8, b);
    Seq::filter_distributes_over_add(split(a, 0u8), split(b, 0u8), ne);
    lemma_filter_map_add(split(a, 0u8).filter(ne), split(b, 0u8).filter(ne), f);
}

/// Where the snapshots live, given `$XDG_CACHE_HOME` and `$HOME` (`None` when
/// unset): the cache directory, or `$HOME/.cache` when it is unset or empty,
/// then `/omni/env`.
pub open spec fn env_dir_of(xdg: Option<Seq<char>>, home: Option<Seq<char>>) -> Seq<char> {
    let fallback = home_or_empty(home) + "/.cache"@;
    let base = match xdg {
        Some(x) => if x.len() > 0 {
            x
        } else {
            fallback
        },
        None => fallback,
    };
    base + "/omni/env"@
}

/// `$HOME`, or empty when it is unset.
pub open spec fn home_or_empty(home: Option<Seq<char>>) -> Seq<char> {
    match home {
        Some(h) => h,
        None => Seq::empty(),
    }
}

/// The directory the snapshots live in ([`env_dir_of`]).
pub fn env_dir(xdg_cache_home: Option<&str>, home: Option<&str>) -> (d: String)
    ensures
        d@ == env_dir_of(
            match xdg_cache_home {
                Some(x) => Some(x@),
                None => None,
            },
            match home {
                Some(h) => Some(h@),
                None => None,
            },
        ),
{
    let mut d = match xdg_cache_home {
        Some(x) if !x.is_empty() => String::from_str(x),
        _ => {
            let mut b = match home {
                Some(h) => String::from_str(h),
                None => String::new(),
            };
            b.append("/.cache");
            b
        },
    };
    d.append("/omni/env");
    d
}

/// `s` without any leading `c`, as `str::trim_start_matches(c)` leaves it.
pub open spec fn trim_start_char(s: Seq<char>, c: char) -> Seq<char>
    decreases s.len(),
{
    if s.len() > 0 && s[0] == c {
        trim_start_char(s.drop_first(), c)
    } else {
        s
    }
}

/// The snapshot file of a pane: `dir/<pane id without its leading %>`.
pub fn record_path(dir: &str, pane_id: &str) -> (p: String)
    ensures
        p@ == dir@ + seq!['/'] + trim_start_char(pane_id@, '%'),
{
    let v = chars_of(pane_id);
    let n = v.len();
    let mut a: usize = 0;
    assert(v@.skip(0) =~= v@);
    while a < n && v[a] == '%'
        invariant
            n == v.len(),
            a <= n,
            trim_start_char(v@, '%') == trim_start_char(v@.skip(a as int), '%'),
        decreases n - a,
    {
        assert(v@.skip(a as int).drop_first() =~= v@.skip(a + 1));
        a = a + 1;
    }
    let rest = crate::text::slice_of(&v, a, n);
    assert(rest@ =~= v@.skip(a as int));
    let mut p = String::from_str(dir);
    p.append("/");
    let r = string_of(&rest);
    p.append(r.as_str());
    proof {
        reveal_strlit("/");
    }
    p
}

} // verus!
