use vstd::prelude::*;
use crate::entry::Entry;
use crate::filter::{display_spec, is_hidden, lemma_unhidden};
use crate::format::{long_line, renders_all, size_field, size_text};
use crate::sort::{descending, key_le, lemma_key_reflexive, lemma_key_total, lemma_sort_spec};
use crate::sort::{insert_pos, sort_key_of, sort_spec, sorted_by, SortKey};
use crate::text::{lower_of, pad_left, pad_right, starts_with_dot};

verus! {

broadcast use vstd::seq_lib::group_to_multiset_ensures;

/// Whether `part` occurs in `line` as a contiguous run.
pub open spec fn occurs_in(part: Seq<char>, line: Seq<char>) -> bool {
    exists|k: int| 0 <= k && k + part.len() <= line.len() && #[trigger] line.subrange(k, k + part.len()) == part
}

/// A dotfile is left out when hidden entries are not requested and kept
/// when they are, whatever the sort order applied afterwards.
pub proof fn law_dotfile_visibility(
    entries: Seq<Entry>,
    e: Entry,
    by_time: bool,
    by_size: bool,
    reverse: bool,
)
    requires
        entries.contains(e),
        starts_with_dot(e.name@),
    ensures
        !display_spec(entries, false).contains(e),
        display_spec(entries, true).contains(e),
        !sort_spec(display_spec(entries, false), sort_key_of(by_time, by_size), reverse).contains(e),
        sort_spec(display_spec(entries, true), sort_key_of(by_time, by_size), reverse).contains(e),
{
    let k = sort_key_of(by_time, by_size);
    let shown = display_spec(entries, false);
    lemma_unhidden(entries);
    assert(is_hidden(e));
    lemma_sort_spec(shown, k, reverse);
    lemma_sort_spec(entries, k, reverse);
    assert(shown.to_multiset().count(e) == 0);
    assert(entries.to_multiset().count(e) > 0);
}

/// Sorting equal inputs with equal options gives the same order.
pub proof fn law_sort_repeatable(s1: Seq<Entry>, s2: Seq<Entry>, k: SortKey, reverse: bool)
    requires
        s1 == s2,
    ensures
        sort_spec(s1, k, reverse) == sort_spec(s2, k, reverse),
{
}

/// The key order is total, and names whose lower-case forms agree compare
/// equal, so that `Apple` and `apple` are interchangeable for sorting.
pub proof fn law_key_order(k: SortKey, a: Entry, b: Entry)
    ensures
        key_le(k, a, b) || key_le(k, b, a),
        lower_of(a.name@) == lower_of(b.name@) ==> key_le(SortKey::Name, a, b) && key_le(
            SortKey::Name,
            b,
            a,
        ),
{
    lemma_key_total(k, a, b);
    lemma_key_reflexive(SortKey::Name, a);
}

/// Two entries with distinct keys come out in the same order whatever order
/// they came in: ascending by key, or descending where the presentation is
/// descending (time and size by default, name when reversed).
pub proof fn law_two_entry_direction(a: Entry, b: Entry, by_time: bool, by_size: bool, reverse: bool)
    requires
        key_le(sort_key_of(by_time, by_size), a, b),
        !key_le(sort_key_of(by_time, by_size), b, a),
    ensures
        sort_spec(seq![a, b], sort_key_of(by_time, by_size), reverse) == sort_spec(
            seq![b, a],
            sort_key_of(by_time, by_size),
            reverse,
        ),
        sort_spec(seq![a, b], sort_key_of(by_time, by_size), reverse) == if descending(
            sort_key_of(by_time, by_size),
            reverse,
        ) {
            seq![b, a]
        } else {
            seq![a, b]
        },
{
    let k = sort_key_of(by_time, by_size);
    let ab = seq![a, b];
    let ba = seq![b, a];
    assert(ab.drop_last() =~= seq![a]);
    assert(ba.drop_last() =~= seq![b]);
    assert(seq![a].drop_last() =~= Seq::<Entry>::empty());
    assert(seq![b].drop_last() =~= Seq::<Entry>::empty());
    let empty = Seq::<Entry>::empty();
    assert(sorted_by(k, empty) == empty);
    assert(insert_pos(k, empty, a) == 0);
    assert(insert_pos(k, empty, b) == 0);
    assert(empty.insert(0, a) =~= seq![a]);
    assert(empty.insert(0, b) =~= seq![b]);
    assert(sorted_by(k, seq![a]) =~= seq![a]);
    assert(sorted_by(k, seq![b]) =~= seq![b]);
    assert(insert_pos(k, seq![a], b) == 1);
    assert(insert_pos(k, seq![b], a) == 0);
    assert(sorted_by(k, ab) =~= seq![a, b]);
    assert(sorted_by(k, ba) =~= seq![a, b]);
    assert(seq![a, b].reverse() =~= seq![b, a]);
}

/// The detailed line of an entry with human-readable sizes holds the
/// entry's human-readable size.
pub proof fn law_long_line_holds_size(e: Entry, stamp: Seq<char>)
    ensures
        occurs_in(size_text(e.size as nat), long_line(e, true, stamp)),
{
    let line = long_line(e, true, stamp);
    let part = size_text(e.size as nat);
    let head = pad_right(e.name@, 20) + "  "@;
    let col = pad_left(size_field(e.size as nat, true), 10);
    let k = head.len() + (col.len() - part.len());
    assert(col.subrange(col.len() - part.len(), col.len() as int) =~= part);
    assert(line.subrange(k, k + part.len()) =~= part);
}

/// Filtering, sorting and rendering yields one line for each entry that
/// passed the filter: sorting neither drops nor duplicates an entry, and
/// rendering maps entries one for one.
pub proof fn law_pipeline_count(
    entries: Seq<Entry>,
    all: bool,
    by_time: bool,
    by_size: bool,
    reverse: bool,
    long: bool,
    human: bool,
    out: Seq<String>,
)
    requires
        renders_all(
            sort_spec(display_spec(entries, all), sort_key_of(by_time, by_size), reverse),
            long,
            human,
            out,
        ),
    ensures
        out.len() == display_spec(entries, all).len(),
        sort_spec(display_spec(entries, all), sort_key_of(by_time, by_size), reverse).to_multiset()
            == display_spec(entries, all).to_multiset(),
{
    lemma_sort_spec(display_spec(entries, all), sort_key_of(by_time, by_size), reverse);
}

} // verus!
