use vstd::prelude::*;
use crate::entry::{Arg, Entry, Timestamp};
use crate::text::{chars_of, lex_less, lex_lt, lower_of, lowercase};
use crate::text::{lemma_lex_irreflexive, lemma_lex_transitive, lemma_lex_trichotomy};

verus! {

broadcast use vstd::seq_lib::group_to_multiset_ensures;

/// The key that entries are ordered by.
#[derive(Clone, Copy, Debug, PartialEq, Eq, Structural)]
pub enum SortKey {
    Name,
    Time,
    Size,
}

/// Time sorting takes precedence over size sorting; name is the default.
pub open spec fn sort_key_of(by_time: bool, by_size: bool) -> SortKey {
    if by_time {
        SortKey::Time
    } else if by_size {
        SortKey::Size
    } else {
        SortKey::Name
    }
}

/// Whether the presented order is the descending one: time and size are
/// newest / largest first by default, name is A to Z by default, and
/// `reverse` flips each of them.
pub open spec fn descending(k: SortKey, reverse: bool) -> bool {
    match k {
        SortKey::Name => reverse,
        _ => !reverse,
    }
}

/// Chronological order of timestamps.
pub open spec fn time_le(a: Timestamp, b: Timestamp) -> bool {
    a.secs < b.secs || (a.secs == b.secs && a.nanos <= b.nanos)
}

/// Whether `a` may come before `b` in ascending order of the key; names
/// compare by their lower-case forms.
pub open spec fn key_le(k: SortKey, a: Entry, b: Entry) -> bool {
    match k {
        SortKey::Name => !lex_lt(lower_of(b.name@), lower_of(a.name@)),
        SortKey::Time => time_le(a.modified, b.modified),
        SortKey::Size => a.size <= b.size,
    }
}

/// Whether `s` is in ascending order of the key.
pub open spec fn ascending_by(k: SortKey, s: Seq<Entry>) -> bool {
    forall|i: int, j: int| 0 <= i < j < s.len() ==> key_le(k, #[trigger] s[i], #[trigger] s[j])
}

/// Where `x` goes in `s`: after the last entry that does not exceed it,
/// searching from the end.
pub open spec fn insert_pos(k: SortKey, s: Seq<Entry>, x: Entry) -> int
    decreases s.len(),
{
    if s.len() == 0 {
        0
    } else if key_le(k, s.last(), x) {
        s.len() as int
    } else {
        insert_pos(k, s.drop_last(), x)
    }
}

/// The stable ascending sort of `s` by the key.
pub open spec fn sorted_by(k: SortKey, s: Seq<Entry>) -> Seq<Entry>
    decreases s.len(),
{
    if s.len() == 0 {
        s
    } else {
        let t = sorted_by(k, s.drop_last());
        t.insert(insert_pos(k, t, s.last()), s.last())
    }
}

/// The presented order: the stable ascending sort, reversed when the
/// presentation is descending.
pub open spec fn sort_spec(s: Seq<Entry>, k: SortKey, reverse: bool) -> Seq<Entry> {
    if descending(k, reverse) {
        sorted_by(k, s).reverse()
    } else {
        sorted_by(k, s)
    }
}

/// Whether `s` is in the presented direction for the key.
pub open spec fn presented_in_order(k: SortKey, reverse: bool, s: Seq<Entry>) -> bool {
    forall|i: int, j: int|
        0 <= i < j < s.len() ==> if descending(k, reverse) {
            key_le(k, #[trigger] s[j], #[trigger] s[i])
        } else {
            key_le(k, s[i], s[j])
        }
}

pub proof fn lemma_key_total(k: SortKey, a: Entry, b: Entry)
    ensures
        key_le(k, a, b) || key_le(k, b, a),
{
    lemma_lex_trichotomy(lower_of(a.name@), lower_of(b.name@));
}

pub proof fn lemma_key_reflexive(k: SortKey, a: Entry)
    ensures
        key_le(k, a, a),
{
    lemma_lex_irreflexive(lower_of(a.name@));
}

pub proof fn lemma_key_transitive(k: SortKey, a: Entry, b: Entry, c: Entry)
    requires
        key_le(k, a, b),
        key_le(k, b, c),
    ensures
        key_le(k, a, c),
{
    if k is Name {
        let (la, lb, lc) = (lower_of(a.name@), lower_of(b.name@), lower_of(c.name@));
        if lex_lt(lc, la) {
            lemma_lex_trichotomy(la, lb);
            if lex_lt(la, lb) {
                lemma_lex_transitive(lc, la, lb);
            }
        }
    }
}

proof fn lemma_insert_pos(k: SortKey, s: Seq<Entry>, x: Entry)
    ensures
        0 <= insert_pos(k, s, x) <= s.len(),
        insert_pos(k, s, x) > 0 ==> key_le(k, s[insert_pos(k, s, x) - 1], x),
        forall|i: int| insert_pos(k, s, x) <= i < s.len() ==> !key_le(k, #[trigger] s[i], x),
    decreases s.len(),
{
    if s.len() > 0 && !key_le(k, s.last(), x) {
        let d = s.drop_last();
        lemma_insert_pos(k, d, x);
        assert forall|i: int| insert_pos(k, s, x) <= i < s.len() implies !key_le(k, #[trigger] s[i], x) by {
            if i < s.len() - 1 {
                assert(s[i] == d[i]);
            }
        }
    }
}

proof fn lemma_insert_keeps_order(k: SortKey, s: Seq<Entry>, x: Entry)
    requires
        ascending_by(k, s),
    ensures
        ascending_by(k, s.insert(insert_pos(k, s, x), x)),
{
    let p = insert_pos(k, s, x);
    let t = s.insert(p, x);
    lemma_insert_pos(k, s, x);
    assert forall|i: int, j: int| 0 <= i < j < t.len() implies key_le(k, #[trigger] t[i], #[trigger] t[j]) by {
        if i < p && j == p {
            if i < p - 1 {
                lemma_key_transitive(k, s[i], s[p - 1], x);
            }
        } else if i == p {
            lemma_key_total(k, s[j - 1], x);
        } else if i < p && j > p {
            lemma_key_total(k, s[j - 1], x);
            if i < p - 1 {
                lemma_key_transitive(k, s[i], s[p - 1], x);
            }
            lemma_key_transitive(k, s[i], x, s[j - 1]);
        }
    }
}

/// The stable sort is in ascending order of the key and holds the same
/// entries as its input.
pub proof fn lemma_sorted_by(k: SortKey, s: Seq<Entry>)
    ensures
        ascending_by(k, sorted_by(k, s)),
        sorted_by(k, s).to_multiset() == s.to_multiset(),
        sorted_by(k, s).len() == s.len(),
    decreases s.len(),
{
    if s.len() > 0 {
        let t = sorted_by(k, s.drop_last());
        lemma_sorted_by(k, s.drop_last());
        lemma_insert_pos(k, t, s.last());
        lemma_insert_keeps_order(k, t, s.last());
        vstd::seq_lib::to_multiset_insert(t, insert_pos(k, t, s.last()), s.last());
        assert(s =~= s.drop_last().push(s.last()));
        vstd::seq_lib::to_multiset_build(s.drop_last(), s.last());
    }
}

/// The presented order holds the same entries as the input, in the
/// presented direction.
pub proof fn lemma_sort_spec(s: Seq<Entry>, k: SortKey, reverse: bool)
    ensures
        sort_spec(s, k, reverse).to_multiset() == s.to_multiset(),
        sort_spec(s, k, reverse).len() == s.len(),
        presented_in_order(k, reverse, sort_spec(s, k, reverse)),
{
    lemma_sorted_by(k, s);
    let t = sorted_by(k, s);
    if descending(k, reverse) {
        t.lemma_reverse_to_multiset();
        let r = t.reverse();
        assert forall|i: int, j: int| 0 <= i < j < r.len() implies key_le(k, #[trigger] r[j], #[trigger] r[i]) by {
            assert(r[j] == t[t.len() - 1 - j]);
            assert(r[i] == t[t.len() - 1 - i]);
        }
    }
}

/// Selects the sort key from the options.
pub fn sort_key(arg: &Arg) -> (k: SortKey)
    ensures
        k == sort_key_of(arg.sort_by_time, arg.sort_by_size),
{
    if arg.sort_by_time {
        SortKey::Time
    } else if arg.sort_by_size {
        SortKey::Size
    } else {
        SortKey::Name
    }
}

/// Whether `a` may come before `b`; `ka` and `kb` are the lower-case names
/// when sorting by name.
fn entry_le(k: SortKey, a: &Entry, ka: &Vec<char>, b: &Entry, kb: &Vec<char>) -> (r: bool)
    requires
        k is Name ==> ka@ == lower_of(a.name@) && kb@ == lower_of(b.name@),
    ensures
        r == key_le(k, *a, *b),
{
    match k {
        SortKey::Name => !lex_less(kb, ka),
        SortKey::Time => a.modified.secs < b.modified.secs || (a.modified.secs
            == b.modified.secs && a.modified.nanos <= b.modified.nanos),
        SortKey::Size => a.size <= b.size,
    }
}

/// The comparison key of an entry: its lower-case name when sorting by name.
fn compare_key(k: SortKey, e: &Entry) -> (r: Vec<char>)
    ensures
        k is Name ==> r@ == lower_of(e.name@),
{
    match k {
        SortKey::Name => chars_of(&lowercase(&e.name)),
        _ => Vec::new(),
    }
}

/// Stable ascending sort by the key, by insertion.
fn sort_ascending(entries: Vec<Entry>, k: SortKey) -> (r: Vec<Entry>)
    ensures
        r@ == sorted_by(k, entries@),
{
    let ghost s = entries@;
    let mut rest = entries;
    let mut out: Vec<Entry> = Vec::new();
    let mut keys: Vec<Vec<char>> = Vec::new();
    let ghost mut i: int = 0;
    assert(s.subrange(0, 0) =~= Seq::<Entry>::empty());
    assert(s.subrange(0, s.len() as int) =~= s);
    while rest.len() > 0
        invariant
            0 <= i <= s.len(),
            rest@ == s.subrange(i, s.len() as int),
            out@ == sorted_by(k, s.subrange(0, i)),
            keys.len() == out.len(),
            forall|m: int|
                0 <= m < out.len() ==> (k is Name ==> (#[trigger] keys@[m])@ == lower_of(
                    out@[m].name@,
                )),
        decreases rest.len(),
    {
        let x = rest.remove(0);
        let kx = compare_key(k, &x);
        let mut j: usize = out.len();
        assert(out@.subrange(0, j as int) =~= out@);
        while j > 0 && !entry_le(k, &out[j - 1], &keys[j - 1], &x, &kx)
            invariant
                j <= out.len(),
                keys.len() == out.len(),
                forall|m: int|
                    0 <= m < out.len() ==> (k is Name ==> (#[trigger] keys@[m])@ == lower_of(
                        out@[m].name@,
                    )),
                k is Name ==> kx@ == lower_of(x.name@),
                insert_pos(k, out@, x) == insert_pos(k, out@.subrange(0, j as int), x),
            decreases j,
        {
            assert(out@.subrange(0, j as int).drop_last() =~= out@.subrange(0, j - 1));
            j = j - 1;
        }
        proof {
            let t = s.subrange(0, i + 1);
            assert(t.drop_last() =~= s.subrange(0, i));
            assert(t.last() == x);
        }
        let ghost keys0 = keys@;
        let ghost out0 = out@;
        out.insert(j, x);
        keys.insert(j, kx);
        proof {
            i = i + 1;
            assert(rest@ =~= s.subrange(i, s.len() as int));
            assert forall|m: int| 0 <= m < out.len() && k is Name implies (
            #[trigger] keys@[m])@ == lower_of(out@[m].name@) by {
                if m > j {
                    assert(keys@[m] == keys0[m - 1]);
                    assert(out@[m] == out0[m - 1]);
                } else if m < j {
                    assert(keys@[m] == keys0[m]);
                    assert(out@[m] == out0[m]);
                }
            }
        }
    }
    out
}

/// The entries in reverse order.
fn reversed(v: Vec<Entry>) -> (r: Vec<Entry>)
    ensures
        r@ == v@.reverse(),
{
    let ghost s = v@;
    let mut rest = v;
    let mut r: Vec<Entry> = Vec::new();
    while rest.len() > 0
        invariant
            rest.len() <= s.len(),
            rest@ == s.subrange(0, rest.len() as int),
            r@ =~= s.subrange(rest.len() as int, s.len() as int).reverse(),
        decreases rest.len(),
    {
        let e = rest.pop().unwrap();
        r.push(e);
        assert(r@ =~= s.subrange(rest.len() as int, s.len() as int).reverse());
        assert(rest@ =~= s.subrange(0, rest.len() as int));
    }
    assert(s.subrange(0, s.len() as int) =~= s);
    r
}

/// Orders the entries by the selected key: by case-insensitive name in
/// ascending order unless reversed, by modification time newest first or by
/// size largest first unless reversed. Entries with equal keys keep their
/// relative order in the ascending sort.
pub fn sort_entries(entries: Vec<Entry>, arg: &Arg) -> (r: Vec<Entry>)
    ensures
        r@ == sort_spec(entries@, sort_key_of(arg.sort_by_time, arg.sort_by_size), arg.reverse),
        r@.to_multiset() == entries@.to_multiset(),
        presented_in_order(sort_key_of(arg.sort_by_time, arg.sort_by_size), arg.reverse, r@),
{
    let k = sort_key(arg);
    proof {
        lemma_sort_spec(entries@, k, arg.reverse);
    }
    let sorted = sort_ascending(entries, k);
    let desc = match k {
        SortKey::Name => arg.reverse,
        _ => !arg.reverse,
    };
    if desc {
        reversed(sorted)
    } else {
        sorted
    }
}

} // verus!
