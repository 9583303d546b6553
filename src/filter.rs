use vstd::prelude::*;
use crate::entry::{Arg, Attribute, Entry};
use crate::text::{is_dot_name, starts_with_dot};

verus! {

/// Whether the Windows HIDDEN flag is set in the entry's attributes; other
/// platforms have no such flag.
pub open spec fn hidden_flag(a: Attribute) -> bool {
    match a {
        Attribute::Windows(bits) => (bits / 2) % 2 == 1,
        _ => false,
    }
}

/// Whether an entry is suppressed unless all entries are requested.
pub open spec fn is_hidden(e: Entry) -> bool {
    starts_with_dot(e.name@) || hidden_flag(e.attribute)
}

/// The entries of `s` that are not hidden, in their order in `s`.
pub open spec fn unhidden(s: Seq<Entry>) -> Seq<Entry>
    decreases s.len(),
{
    if s.len() == 0 {
        s
    } else if is_hidden(s.last()) {
        unhidden(s.drop_last())
    } else {
        unhidden(s.drop_last()).push(s.last())
    }
}

/// The entries shown: all of them when `all` is set, else those not hidden.
pub open spec fn display_spec(s: Seq<Entry>, all: bool) -> Seq<Entry> {
    if all {
        s
    } else {
        unhidden(s)
    }
}

/// No hidden entry survives the filter, and every survivor comes from the
/// input.
pub proof fn lemma_unhidden(s: Seq<Entry>)
    ensures
        unhidden(s).len() <= s.len(),
        forall|i: int| 0 <= i < unhidden(s).len() ==> !is_hidden(#[trigger] unhidden(s)[i]),
        forall|i: int| 0 <= i < unhidden(s).len() ==> s.contains(#[trigger] unhidden(s)[i]),
    decreases s.len(),
{
    if s.len() > 0 {
        let d = s.drop_last();
        lemma_unhidden(d);
        let u = unhidden(s);
        assert forall|i: int| 0 <= i < u.len() implies s.contains(#[trigger] u[i]) by {
            if i < unhidden(d).len() {
                let w = choose|w: int| 0 <= w < d.len() && d[w] == unhidden(d)[i];
                assert(s[w] == d[w]);
            } else {
                assert(s[s.len() - 1] == u[i]);
            }
        }
    }
}

/// Whether the entry is hidden: a dotfile, or flagged HIDDEN on Windows.
pub fn entry_is_hidden(e: &Entry) -> (r: bool)
    ensures
        r == is_hidden(*e),
{
    let flagged = match e.attribute {
        Attribute::Windows(bits) => (bits / 2) % 2 == 1,
        _ => false,
    };
    is_dot_name(&e.name) || flagged
}

/// Keeps the entries to display: all of them when `arg.all` is set, else
/// those that are not hidden, in their original order.
pub fn should_display(entries: Vec<Entry>, arg: &Arg) -> (r: Vec<Entry>)
    ensures
        r@ == display_spec(entries@, arg.all),
{
    if arg.all {
        return entries;
    }
    let ghost s = entries@;
    let mut rest = entries;
    let mut out: Vec<Entry> = Vec::new();
    let ghost mut i: int = 0;
    assert(s.subrange(0, 0) =~= Seq::<Entry>::empty());
    assert(s.subrange(0, s.len() as int) =~= s);
    while rest.len() > 0
        invariant
            0 <= i <= s.len(),
            rest@ == s.subrange(i, s.len() as int),
            out@ == unhidden(s.subrange(0, i)),
        decreases rest.len(),
    {
        let e = rest.remove(0);
        proof {
            let t = s.subrange(0, i + 1);
            assert(t.drop_last() =~= s.subrange(0, i));
            assert(t.last() == e);
        }
        if !entry_is_hidden(&e) {
            out.push(e);
        }
        proof {
            i = i + 1;
            assert(rest@ =~= s.subrange(i, s.len() as int));
        }
    }
    out
}

} // verus!
