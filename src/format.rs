use vstd::prelude::*;
use crate::entry::{Arg, Attribute, Entry};
use crate::text::{dec_text, digit_char, digit_str, pad_left, pad_right, push_decimal};
use crate::text::{push_padded_left, push_padded_right};

verus! {

pub const KIB: u64 = 1024;

pub const MIB: u64 = 1024 * 1024;

pub const GIB: u64 = 1024 * 1024 * 1024;

/// `b / unit` in tenths, rounded to the nearest tenth, ties to even.
pub open spec fn round_tenths(b: nat, unit: nat) -> nat
    recommends
        unit > 0,
{
    let t = b * 10 / unit;
    let rem = (b * 10) % unit;
    if rem * 2 > unit || (rem * 2 == unit && t % 2 == 1) {
        t + 1
    } else {
        t
    }
}

/// A count of tenths with one decimal place, such as `2.0`.
pub open spec fn tenths_text(t: nat) -> Seq<char> {
    dec_text(t / 10) + seq!['.', digit_char(t % 10)]
}

/// A byte count in the largest of G, M and K that it reaches, with one
/// decimal place; below 1024, the plain count followed by `B`.
pub open spec fn size_text(b: nat) -> Seq<char> {
    if b >= GIB {
        tenths_text(round_tenths(b, GIB as nat)).push('G')
    } else if b >= MIB {
        tenths_text(round_tenths(b, MIB as nat)).push('M')
    } else if b >= KIB {
        tenths_text(round_tenths(b, KIB as nat)).push('K')
    } else {
        dec_text(b).push('B')
    }
}

/// The size column: human-readable units, or the byte count with `B`.
pub open spec fn size_field(size: nat, human: bool) -> Seq<char> {
    if human {
        size_text(size)
    } else {
        dec_text(size).push('B')
    }
}

/// Adds a Windows flag name to a comma-separated list when the flag is set.
pub open spec fn with_flag(acc: Seq<char>, set: bool, name: Seq<char>) -> Seq<char> {
    if !set {
        acc
    } else if acc.len() == 0 {
        name
    } else {
        acc + ", "@ + name
    }
}

/// The names of the READONLY, HIDDEN, SYSTEM and ARCHIVE flags that are set.
pub open spec fn windows_flags(bits: nat) -> Seq<char> {
    let a = with_flag(Seq::empty(), bits % 2 == 1, "READONLY"@);
    let b = with_flag(a, (bits / 2) % 2 == 1, "HIDDEN"@);
    let c = with_flag(b, (bits / 4) % 2 == 1, "SYSTEM"@);
    with_flag(c, (bits / 32) % 2 == 1, "ARCHIVE"@)
}

/// The attribute summary: three octal digits of the low nine permission
/// bits on POSIX, the flag names (or `NORMAL`) on Windows, `UNKNOWN`
/// elsewhere.
pub open spec fn attr_text(a: Attribute) -> Seq<char> {
    match a {
        Attribute::Posix(bits) => {
            let m = (bits % 512) as nat;
            seq![digit_char(m / 64), digit_char((m / 8) % 8), digit_char(m % 8)]
        },
        Attribute::Windows(bits) => if windows_flags(bits as nat).len() == 0 {
            "NORMAL"@
        } else {
            windows_flags(bits as nat)
        },
        Attribute::Unknown => "UNKNOWN"@,
    }
}

/// The detailed line of an entry, given its rendered modification time.
pub open spec fn long_line(e: Entry, human: bool, stamp: Seq<char>) -> Seq<char> {
    pad_right(e.name@, 20) + "  "@ + pad_left(size_field(e.size as nat, human), 10)
        + " size  modified: "@ + pad_right(stamp, 15) + " attributes: "@ + attr_text(e.attribute)
}

/// Whether `line` renders `e`: its name in compact mode, its detailed line
/// with some rendering of its modification time in long mode.
pub open spec fn renders(e: Entry, long: bool, human: bool, line: Seq<char>) -> bool {
    if long {
        exists|stamp: Seq<char>| line == long_line(e, human, stamp)
    } else {
        line == e.name@
    }
}

/// Whether `out` renders the entries of `es` one for one, in order.
pub open spec fn renders_all(es: Seq<Entry>, long: bool, human: bool, out: Seq<String>) -> bool {
    &&& out.len() == es.len()
    &&& forall|i: int| 0 <= i < out.len() ==> renders(#[trigger] es[i], long, human, out[i]@)
}

/// Appends the scaled size with one decimal place and the unit letter.
fn push_scaled(s: &mut String, b: u64, unit: u64)
    requires
        unit >= KIB,
    ensures
        final(s)@ == old(s)@ + tenths_text(round_tenths(b as nat, unit as nat)),
{
    let prod: u128 = (b as u128) * 10;
    let t0: u128 = prod / (unit as u128);
    let rem: u128 = prod % (unit as u128);
    proof {
        assert(t0 * 1024 <= prod) by (nonlinear_arith)
            requires
                t0 == prod / (unit as u128),
                unit >= 1024,
        ;
    }
    let t: u128 = if rem * 2 > unit as u128 || (rem * 2 == unit as u128 && t0 % 2 == 1) {
        t0 + 1
    } else {
        t0
    };
    push_decimal(s, (t / 10) as u64);
    proof {
        reveal_strlit(".");
    }
    s.append(".");
    s.append(digit_str((t % 10) as u64));
    assert(final(s)@ =~= old(s)@ + tenths_text(round_tenths(b as nat, unit as nat)));
}

/// Renders a byte count in human-readable units.
pub fn format_size(bytes: u64) -> (r: String)
    ensures
        r@ == size_text(bytes as nat),
{
    let mut s = String::new();
    proof {
        reveal_strlit("G");
        reveal_strlit("M");
        reveal_strlit("K");
        reveal_strlit("B");
    }
    if bytes >= GIB {
        push_scaled(&mut s, bytes, GIB);
        s.append("G");
    } else if bytes >= MIB {
        push_scaled(&mut s, bytes, MIB);
        s.append("M");
    } else if bytes >= KIB {
        push_scaled(&mut s, bytes, KIB);
        s.append("K");
    } else {
        push_decimal(&mut s, bytes);
        s.append("B");
    }
    assert(s@ =~= size_text(bytes as nat));
    s
}

/// Renders the size column of the detailed line.
pub fn format_size_field(size: u64, human_readable: bool) -> (r: String)
    ensures
        r@ == size_field(size as nat, human_readable),
{
    if human_readable {
        format_size(size)
    } else {
        let mut s = String::new();
        push_decimal(&mut s, size);
        proof {
            reveal_strlit("B");
        }
        s.append("B");
        assert(s@ =~= size_field(size as nat, human_readable));
        s
    }
}

/// Appends a flag name to a comma-separated list when the flag is set.
fn push_flag(s: &mut String, set: bool, name: &str)
    ensures
        final(s)@ == with_flag(old(s)@, set, name@),
{
    if set {
        if s.as_str().unicode_len() > 0 {
            s.append(", ");
        }
        s.append(name);
    }
}

/// Renders the attribute summary of an entry.
pub fn parse_attributes(attr: Attribute) -> (r: String)
    ensures
        r@ == attr_text(attr),
{
    match attr {
        Attribute::Posix(bits) => {
            let m: u32 = bits % 512;
            let mut s = String::new();
            s.append(digit_str((m / 64) as u64));
            s.append(digit_str(((m / 8) % 8) as u64));
            s.append(digit_str((m % 8) as u64));
            assert(s@ =~= attr_text(attr));
            s
        },
        Attribute::Windows(bits) => {
            let mut s = String::new();
            push_flag(&mut s, bits % 2 == 1, "READONLY");
            push_flag(&mut s, (bits / 2) % 2 == 1, "HIDDEN");
            push_flag(&mut s, (bits / 4) % 2 == 1, "SYSTEM");
            push_flag(&mut s, (bits / 32) % 2 == 1, "ARCHIVE");
            if s.as_str().unicode_len() == 0 {
                String::from_str("NORMAL")
            } else {
                s
            }
        },
        Attribute::Unknown => String::from_str("UNKNOWN"),
    }
}

/// Renders the detailed line of an entry; `stamp` is its modification time
/// as already rendered.
pub fn format_long_line(e: &Entry, human_readable: bool, stamp: &str) -> (r: String)
    ensures
        r@ == long_line(*e, human_readable, stamp@),
{
    let mut s = String::new();
    push_padded_right(&mut s, e.name.as_str(), 20);
    s.append("  ");
    let size = format_size_field(e.size, human_readable);
    push_padded_left(&mut s, size.as_str(), 10);
    s.append(" size  modified: ");
    push_padded_right(&mut s, stamp, 15);
    s.append(" attributes: ");
    let attrs = parse_attributes(e.attribute);
    s.append(attrs.as_str());
    assert(s@ =~= long_line(*e, human_readable, stamp@));
    s
}

/// Relies on chrono's `DateTime::from_timestamp`, `DateTime::with_timezone`
/// with `Local`, and `DateTime::format`: renders an instant given relative to
/// the UNIX epoch as `<month> <day> <hour>:<minute>` in the machine's local
/// time zone, or gives `None` when chrono cannot represent the instant.
#[verifier::external_body]
fn local_stamp(secs: i64, nanos: u32) -> (r: Option<String>) {
    match chrono::DateTime::from_timestamp(secs, nanos) {
        Some(utc) => Some(utc.with_timezone(&chrono::Local).format("%b %d %H:%M").to_string()),
        None => None,
    }
}

/// Renders each entry: its name in compact mode, its detailed line in long
/// mode. An instant that cannot be rendered shows as `?`.
pub fn format_entries(entries: Vec<Entry>, arg: &Arg) -> (r: Vec<String>)
    ensures
        renders_all(entries@, arg.long_format, arg.human_readable, r@),
{
    let mut out: Vec<String> = Vec::new();
    let mut i: usize = 0;
    while i < entries.len()
        invariant
            i <= entries.len(),
            out.len() == i,
            forall|m: int|
                0 <= m < i ==> renders(
                    #[trigger] entries@[m],
                    arg.long_format,
                    arg.human_readable,
                    out@[m]@,
                ),
        decreases entries.len() - i,
    {
        let e = &entries[i];
        let line = if arg.long_format {
            let stamp = match local_stamp(e.modified.secs, e.modified.nanos) {
                Some(text) => text,
                None => String::from_str("?"),
            };
            let line = format_long_line(e, arg.human_readable, stamp.as_str());
            assert(line@ == long_line(*e, arg.human_readable, stamp@));
            line
        } else {
            e.name.clone()
        };
        out.push(line);
        i = i + 1;
    }
    out
}

} // verus!
