//! Which order the window picker shows, how that choice is stored, and the
//! header lines that name it.

use vstd::prelude::*;

use crate::text::{
    chars_eq, chars_of, is_ws, slice_of, string_of, trim, trim_chars, trim_end_char, trim_start,
};

verus! {

/// Which order the window picker is showing. It is stored between runs,
/// because the picker's reload happens in a fresh process.
#[derive(Clone, Copy, PartialEq, Eq, Structural, Debug)]
pub enum Order {
    /// Most recently active first. The default: it answers "where was I?".
    Recency,
    /// Most recently visited first: by when you were last on a window, then,
    /// for windows never visited, by recency.
    Visited,
    /// tmux's own order: session name, then window index.
    Session,
}

/// The word naming an order, which is also how it is stored.
pub open spec fn label_of(o: Order) -> Seq<char> {
    match o {
        Order::Recency => "recency"@,
        Order::Visited => "visited"@,
        Order::Session => "session"@,
    }
}

/// The word naming `o`.
pub fn order_label(o: Order) -> (s: &'static str)
    ensures
        s@ == label_of(o),
{
    match o {
        Order::Recency => "recency",
        Order::Visited => "visited",
        Order::Session => "session",
    }
}

/// The order ctrl-g moves to from `o`: recency, then visited, then session,
/// then recency again.
pub open spec fn next_order(o: Order) -> Order {
    match o {
        Order::Recency => Order::Visited,
        Order::Visited => Order::Session,
        Order::Session => Order::Recency,
    }
}

/// The order a toggle moves to from `o` ([`next_order`]).
pub fn toggled(o: Order) -> (r: Order)
    ensures
        r == next_order(o),
{
    match o {
        Order::Recency => Order::Visited,
        Order::Visited => Order::Session,
        Order::Session => Order::Recency,
    }
}

/// The order a stored file means: `visited` or `session` (surrounding
/// whitespace ignored) name those orders; anything else, or no file at all,
/// is recency.
pub open spec fn stored_order(contents: Option<Seq<char>>) -> Order {
    match contents {
        Some(c) => if trim(c) == "session"@ {
            Order::Session
        } else if trim(c) == "visited"@ {
            Order::Visited
        } else {
            Order::Recency
        },
        None => Order::Recency,
    }
}

/// The order that the stored file's contents name (`None`: no readable file).
pub fn parse_order(contents: Option<&str>) -> (o: Order)
    ensures
        o == stored_order(
            match contents {
                Some(c) => Some(c@),
                None => None,
            },
        ),
{
    match contents {
        Some(c) => {
            let v = chars_of(c);
            let t = trim_chars(&v);
            if chars_eq(&t, &chars_of("session")) {
                Order::Session
            } else if chars_eq(&t, &chars_of("visited")) {
                Order::Visited
            } else {
                Order::Recency
            }
        },
        None => Order::Recency,
    }
}

/// Reading back what was stored for `o` gives `o`: a toggle persists.
pub proof fn stored_label_reads_back(o: Order)
    ensures
        stored_order(Some(label_of(o))) == o,
{
    reveal_strlit("recency");
    reveal_strlit("visited");
    reveal_strlit("session");
    let r = "recency"@;
    let v = "visited"@;
    let s = "session"@;
    assert(!is_ws(r[0]) && !is_ws(r.last()));
    assert(!is_ws(v[0]) && !is_ws(v.last()));
    assert(!is_ws(s[0]) && !is_ws(s.last()));
    assert(trim_start(r) == r);
    assert(trim_start(v) == v);
    assert(trim_start(s) == s);
    assert(trim(r) == r);
    assert(trim(v) == v);
    assert(trim(s) == s);
    assert(r[0] != s[0] && r[0] != v[0] && v[0] != s[0]);
}

/// ctrl-g cycles through all three orders: three toggles come back to where
/// they started, and every toggle changes the order.
pub proof fn toggling_cycles_through_every_order(o: Order)
    ensures
        next_order(next_order(next_order(o))) == o,
        next_order(o) != o,
        next_order(next_order(o)) != o,
        next_order(Order::Recency) == Order::Visited,
        next_order(Order::Visited) == Order::Session,
{
}

/// Where the order is stored, given `$TMPDIR` (`None` when unset): the
/// directory, or `/tmp` when it is unset or empty, without trailing slashes,
/// then `/omni.order`.
pub open spec fn order_path_of(tmpdir: Option<Seq<char>>) -> Seq<char> {
    let dir = match tmpdir {
        Some(t) => if t.len() > 0 {
            t
        } else {
            "/tmp"@
        },
        None => "/tmp"@,
    };
    trim_end_char(dir, '/') + "/omni.order"@
}

/// The file the order is stored in (see [`order_path_of`]).
pub fn order_path(tmpdir: Option<&str>) -> (p: String)
    ensures
        p@ == order_path_of(
            match tmpdir {
                Some(t) => Some(t@),
                None => None,
            },
        ),
{
    let dir = match tmpdir {
        Some(t) => if t.is_empty() {
            chars_of("/tmp")
        } else {
            chars_of(t)
        },
        None => chars_of("/tmp"),
    };
    let mut end = dir.len();
    assert(dir@.take(end as int) =~= dir@);
    while end > 0 && dir[end - 1] == '/'
        invariant
            end <= dir.len(),
            trim_end_char(dir@, '/') == trim_end_char(dir@.take(end as int), '/'),
        decreases end,
    {
        assert(dir@.take(end as int).drop_last() =~= dir@.take(end - 1));
        end = end - 1;
    }
    let kept = slice_of(&dir, 0, end);
    assert(kept@ =~= dir@.take(end as int));
    let mut p = string_of(&kept);
    p.append("/omni.order");
    p
}

/// The window picker's header line for order `o`.
pub open spec fn windows_header_of(o: Order) -> Seq<char> {
    " "@ + label_of(o) + " · enter jump · ctrl-g order · ctrl-x kill · ctrl-j capture "@
}

/// The window picker's one header line: the active order, then the keys.
pub fn windows_header(mode: Order) -> (h: String)
    ensures
        h@ == windows_header_of(mode),
{
    let mut h = String::from_str(" ");
    h.append(order_label(mode));
    h.append(" · enter jump · ctrl-g order · ctrl-x kill · ctrl-j capture ");
    h
}

/// The alerts view's header line for order `o`.
pub open spec fn alerts_header_of(o: Order) -> Seq<char> {
    " alerts · "@ + label_of(o)
        + " · [!] bell [~] stopped [*] running [.] waiting · enter jump "@
}

/// The alerts view's header: the same keys, and what each state marker means.
pub fn alerts_header(mode: Order) -> (h: String)
    ensures
        h@ == alerts_header_of(mode),
{
    let mut h = String::from_str(" alerts · ");
    h.append(order_label(mode));
    h.append(" · [!] bell [~] stopped [*] running [.] waiting · enter jump ");
    h
}

} // verus!
