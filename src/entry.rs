use vstd::prelude::*;

verus! {

/// A modification time: whole seconds relative to the UNIX epoch, plus the
/// sub-second part, which is always counted forward in time.
#[derive(Clone, Copy, Debug, PartialEq, Eq, Structural)]
pub struct Timestamp {
    pub secs: i64,
    pub nanos: u32,
}

impl Timestamp {
    /// The instant as a number of nanoseconds since the epoch.
    pub open spec fn at(self) -> int {
        self.secs * 1_000_000_000 + self.nanos
    }

    /// Builds the timestamp that lies `secs` seconds and `nanos` nanoseconds
    /// after the epoch, or before it when `before` is set.
    pub fn from_epoch_offset(before: bool, secs: u64, nanos: u32) -> (r: Timestamp)
        requires
            secs < i64::MAX,
            nanos < 1_000_000_000,
        ensures
            r.nanos < 1_000_000_000,
            r.at() == if before {
                -(secs * 1_000_000_000 + nanos)
            } else {
                secs * 1_000_000_000 + nanos
            },
    {
        if !before {
            Timestamp { secs: secs as i64, nanos }
        } else if nanos == 0 {
            Timestamp { secs: -(secs as i64), nanos: 0 }
        } else {
            Timestamp { secs: -(secs as i64) - 1, nanos: 1_000_000_000 - nanos }
        }
    }
}

/// The platform-native attribute bits of an entry, tagged with the platform
/// model that gives them meaning.
#[derive(Clone, Copy, Debug, PartialEq, Eq, Structural)]
pub enum Attribute {
    /// POSIX permission mode bits.
    Posix(u32),
    /// Windows file-attribute flags.
    Windows(u32),
    /// No attribute information on this platform.
    Unknown,
}

/// One filesystem object as the pipeline sees it.
#[derive(Debug)]
pub struct Entry {
    pub name: String,
    pub modified: Timestamp,
    pub size: u64,
    pub attribute: Attribute,
}

/// The options that steer filtering, sorting and rendering.
pub struct Arg {
    pub paths: Vec<String>,
    pub all: bool,
    pub recursive: bool,
    pub sort_by_time: bool,
    pub reverse: bool,
    pub sort_by_size: bool,
    pub long_format: bool,
    pub human_readable: bool,
}

/// The display name of an entry: the base name, with a trailing `/` for a
/// directory.
pub open spec fn display_name(base: Seq<char>, is_dir: bool) -> Seq<char> {
    if is_dir {
        base.push('/')
    } else {
        base
    }
}

/// Builds the record of one traversed entry from its metadata.
pub fn make_entry(
    base_name: String,
    is_dir: bool,
    modified: Timestamp,
    size: u64,
    attribute: Attribute,
) -> (r: Entry)
    ensures
        r.name@ == display_name(base_name@, is_dir),
        r.modified == modified,
        r.size == size,
        r.attribute == attribute,
{
    let mut name = base_name;
    if is_dir {
        name.append("/");
        proof {
            reveal_strlit("/");
        }
        assert(name@ =~= display_name(base_name@, is_dir));
    }
    Entry { name, modified, size, attribute }
}

} // verus!
