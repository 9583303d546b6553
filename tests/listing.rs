use dirlist::entry::{make_entry, Arg, Attribute, Entry, Timestamp};
use dirlist::filter::should_display;
use dirlist::format::{format_entries, format_long_line, format_size, parse_attributes};
use dirlist::sort::sort_entries;
use dirlist::text::lex_less;

fn options(all: bool, by_time: bool, by_size: bool, reverse: bool, long: bool, human: bool) -> Arg {
    Arg {
        paths: vec![],
        all,
        recursive: false,
        sort_by_time: by_time,
        reverse,
        sort_by_size: by_size,
        long_format: long,
        human_readable: human,
    }
}

fn entry(name: &str, secs: i64, size: u64) -> Entry {
    Entry {
        name: name.to_string(),
        modified: Timestamp { secs, nanos: 0 },
        size,
        attribute: Attribute::Unknown,
    }
}

fn names(entries: &[Entry]) -> Vec<String> {
    entries.iter().map(|e| e.name.clone()).collect()
}

#[test]
fn test_format_size() {
    assert_eq!(format_size(500), "500B");
    assert_eq!(format_size(2048), "2.0K");
    assert_eq!(format_size(5 * 1024 * 1024), "5.0M");
    assert_eq!(format_size(3 * 1024 * 1024 * 1024), "3.0G");
}

#[test]
fn test_sort_by_name() {
    let entries = vec![
        Entry {
            name: "zebra".to_string(),
            modified: Timestamp { secs: 1_700_000_000, nanos: 0 },
            size: 100,
            attribute: Attribute::Unknown,
        },
        Entry {
            name: "apple".to_string(),
            modified: Timestamp { secs: 1_700_000_000, nanos: 0 },
            size: 200,
            attribute: Attribute::Unknown,
        },
    ];
    let arg = Arg {
        paths: vec![],
        all: false,
        recursive: false,
        sort_by_time: false,
        reverse: false,
        sort_by_size: false,
        long_format: false,
        human_readable: false,
    };
    let sorted = sort_entries(entries, &arg);
    assert_eq!(sorted[0].name, "apple");
    assert_eq!(sorted[1].name, "zebra");
}

#[test]
fn test_sort_by_size() {
    let entries = vec![
        Entry {
            name: "small".to_string(),
            modified: Timestamp { secs: 1_700_000_000, nanos: 0 },
            size: 100,
            attribute: Attribute::Unknown,
        },
        Entry {
            name: "large".to_string(),
            modified: Timestamp { secs: 1_700_000_000, nanos: 0 },
            size: 1000,
            attribute: Attribute::Unknown,
        },
    ];
    let arg = Arg {
        paths: vec![],
        all: false,
        recursive: false,
        sort_by_time: false,
        reverse: false,
        sort_by_size: true,
        long_format: false,
        human_readable: false,
    };
    let sorted = sort_entries(entries, &arg);
    assert_eq!(sorted[0].name, "large");
    assert_eq!(sorted[1].name, "small");
}

#[test]
fn test_reverse_sort() {
    let entries = vec![
        Entry {
            name: "a".to_string(),
            modified: Timestamp { secs: 1_700_000_000, nanos: 0 },
            size: 100,
            attribute: Attribute::Unknown,
        },
        Entry {
            name: "z".to_string(),
            modified: Timestamp { secs: 1_700_000_000, nanos: 0 },
            size: 200,
            attribute: Attribute::Unknown,
        },
    ];
    let arg = Arg {
        paths: vec![],
        all: false,
        recursive: false,
        sort_by_time: false,
        reverse: true,
        sort_by_size: false,
        long_format: false,
        human_readable: false,
    };
    let sorted = sort_entries(entries, &arg);
    assert_eq!(sorted[0].name, "z");
    assert_eq!(sorted[1].name, "a");
}

#[test]
fn test_should_display_filters_hidden() {
    let entries = vec![
        Entry {
            name: ".hidden".to_string(),
            modified: Timestamp { secs: 1_700_000_000, nanos: 0 },
            size: 100,
            attribute: Attribute::Unknown,
        },
        Entry {
            name: "visible".to_string(),
            modified: Timestamp { secs: 1_700_000_000, nanos: 0 },
            size: 200,
            attribute: Attribute::Unknown,
        },
    ];
    let arg = Arg {
        paths: vec![],
        all: false,
        recursive: false,
        sort_by_time: false,
        reverse: false,
        sort_by_size: false,
        long_format: false,
        human_readable: false,
    };
    let filtered = should_display(entries, &arg);
    assert_eq!(filtered.len(), 1);
    assert_eq!(filtered[0].name, "visible");
}

#[test]
fn test_should_display_shows_all() {
    let entries = vec![
        Entry {
            name: ".hidden".to_string(),
            modified: Timestamp { secs: 1_700_000_000, nanos: 0 },
            size: 100,
            attribute: Attribute::Unknown,
        },
        Entry {
            name: "visible".to_string(),
            modified: Timestamp { secs: 1_700_000_000, nanos: 0 },
            size: 200,
            attribute: Attribute::Unknown,
        },
    ];
    let arg = Arg {
        paths: vec![],
        all: true,
        recursive: false,
        sort_by_time: false,
        reverse: false,
        sort_by_size: false,
        long_format: false,
        human_readable: false,
    };
    let filtered = should_display(entries, &arg);
    assert_eq!(filtered.len(), 2);
}

#[test]
fn test_format_entries_short() {
    let entries = vec![Entry {
        name: "test.txt".to_string(),
        modified: Timestamp { secs: 1_700_000_000, nanos: 0 },
        size: 1024,
        attribute: Attribute::Unknown,
    }];
    let arg = Arg {
        paths: vec![],
        all: false,
        recursive: false,
        sort_by_time: false,
        reverse: false,
        sort_by_size: false,
        long_format: false,
        human_readable: false,
    };
    let formatted = format_entries(entries, &arg);
    assert_eq!(formatted[0], "test.txt");
}

#[test]
fn test_format_entries_with_human_readable() {
    let entries = vec![Entry {
        name: "test.txt".to_string(),
        modified: Timestamp { secs: 1_700_000_000, nanos: 0 },
        size: 2048,
        attribute: Attribute::Unknown,
    }];
    let arg = Arg {
        paths: vec![],
        all: false,
        recursive: false,
        sort_by_time: false,
        reverse: false,
        sort_by_size: false,
        long_format: true,
        human_readable: true,
    };
    let formatted = format_entries(entries, &arg);
    assert!(formatted[0].contains("2.0K"));
}

#[test]
fn dotfile_kept_or_dropped_whatever_the_order() {
    for (by_time, by_size, reverse) in [(false, false, false), (true, false, true), (false, true, false)] {
        let hidden = should_display(vec![entry(".profile", 5, 10), entry("notes", 6, 20)], &options(false, by_time, by_size, reverse, false, false));
        let sorted = sort_entries(hidden, &options(false, by_time, by_size, reverse, false, false));
        assert_eq!(names(&sorted), vec!["notes".to_string()]);
        let all = should_display(vec![entry(".profile", 5, 10), entry("notes", 6, 20)], &options(true, by_time, by_size, reverse, false, false));
        let sorted = sort_entries(all, &options(true, by_time, by_size, reverse, false, false));
        assert!(names(&sorted).contains(&".profile".to_string()));
        assert_eq!(sorted.len(), 2);
    }
}

#[test]
fn windows_hidden_flag_filters_only_without_all() {
    let flagged = Entry {
        name: "desktop.ini".to_string(),
        modified: Timestamp { secs: 0, nanos: 0 },
        size: 1,
        attribute: Attribute::Windows(0x2),
    };
    let posix = Entry {
        name: "run.sh".to_string(),
        modified: Timestamp { secs: 0, nanos: 0 },
        size: 1,
        attribute: Attribute::Posix(0o2),
    };
    let kept = should_display(vec![flagged, posix], &options(false, false, false, false, false, false));
    assert_eq!(names(&kept), vec!["run.sh".to_string()]);
}

#[test]
fn name_sort_ignores_case_and_is_repeatable() {
    let make = || vec![entry("banana", 1, 1), entry("Cherry", 2, 2), entry("Apple", 3, 3), entry("apple", 4, 4)];
    let arg = options(false, false, false, false, false, false);
    let first = names(&sort_entries(make(), &arg));
    let second = names(&sort_entries(make(), &arg));
    assert_eq!(first, vec!["Apple", "apple", "banana", "Cherry"]);
    assert_eq!(first, second);
}

#[test]
fn time_and_size_default_descending() {
    let make = || vec![entry("old", 100, 1000), entry("new", 900, 100)];
    let newest = sort_entries(make(), &options(false, true, false, false, false, false));
    assert_eq!(names(&newest), vec!["new", "old"]);
    let oldest = sort_entries(make(), &options(false, true, false, true, false, false));
    assert_eq!(names(&oldest), vec!["old", "new"]);
    let largest = sort_entries(make(), &options(false, false, true, false, false, false));
    assert_eq!(names(&largest), vec!["old", "new"]);
    let smallest = sort_entries(make(), &options(false, false, true, true, false, false));
    assert_eq!(names(&smallest), vec!["new", "old"]);
    let by_name = sort_entries(make(), &options(false, false, false, false, false, false));
    assert_eq!(names(&by_name), vec!["new", "old"]);
}

#[test]
fn time_takes_precedence_over_size() {
    let make = || vec![entry("big_old", 1, 5000), entry("small_new", 2, 5)];
    let sorted = sort_entries(make(), &options(false, true, true, false, false, false));
    assert_eq!(names(&sorted), vec!["small_new", "big_old"]);
}

#[test]
fn sub_second_times_order() {
    let a = Entry { name: "a".to_string(), modified: Timestamp { secs: 10, nanos: 500 }, size: 0, attribute: Attribute::Unknown };
    let b = Entry { name: "b".to_string(), modified: Timestamp { secs: 10, nanos: 900 }, size: 0, attribute: Attribute::Unknown };
    let c = Entry { name: "c".to_string(), modified: Timestamp { secs: -3, nanos: 0 }, size: 0, attribute: Attribute::Unknown };
    let sorted = sort_entries(vec![a, c, b], &options(false, true, false, false, false, false));
    assert_eq!(names(&sorted), vec!["b", "a", "c"]);
}

#[test]
fn equal_sizes_keep_input_order_ascending() {
    let make = || vec![entry("x", 1, 7), entry("y", 2, 7), entry("z", 3, 3)];
    let asc = sort_entries(make(), &options(false, false, true, true, false, false));
    assert_eq!(names(&asc), vec!["z", "x", "y"]);
    let desc = sort_entries(make(), &options(false, false, true, false, false, false));
    assert_eq!(names(&desc), vec!["y", "x", "z"]);
}

#[test]
fn empty_input_through_pipeline() {
    let arg = options(false, false, false, false, true, true);
    let shown = should_display(vec![], &arg);
    let sorted = sort_entries(shown, &arg);
    assert!(format_entries(sorted, &arg).is_empty());
}

#[test]
fn pipeline_keeps_one_line_per_shown_entry() {
    let arg = options(false, false, true, false, false, false);
    let input = vec![entry("a", 1, 3), entry(".b", 1, 2), entry("c", 1, 3), entry("d/", 1, 1)];
    let shown = should_display(input, &arg);
    let count = shown.len();
    let lines = format_entries(sort_entries(shown, &arg), &arg);
    assert_eq!(count, 3);
    assert_eq!(lines, vec!["c", "a", "d/"]);
}

#[test]
fn size_thresholds_and_rounding() {
    assert_eq!(format_size(0), "0B");
    assert_eq!(format_size(1023), "1023B");
    assert_eq!(format_size(1024), "1.0K");
    assert_eq!(format_size(1024 * 1024), "1.0M");
    assert_eq!(format_size(1024 * 1024 * 1024), "1.0G");
    assert_eq!(format_size(1536), "1.5K");
    assert_eq!(format_size(1024 * 1024 - 1), "1024.0K");
    assert_eq!(format_size(u64::MAX), "17179869184.0G");
}

#[test]
fn size_matches_float_formatting() {
    let mut b: u64 = 1024;
    while b < 1024 * 1024 {
        assert_eq!(format_size(b), format!("{:.1}K", b as f64 / 1024.0), "at {}", b);
        b += 1;
    }
    let mut m: u64 = 1024 * 1024;
    while m < 1024 * 1024 * 1024 {
        assert_eq!(format_size(m), format!("{:.1}M", m as f64 / (1024.0 * 1024.0)), "at {}", m);
        m += 997;
    }
}

#[test]
fn attribute_summaries() {
    assert_eq!(parse_attributes(Attribute::Posix(0o100644)), "644");
    assert_eq!(parse_attributes(Attribute::Posix(0o4755)), "755");
    assert_eq!(parse_attributes(Attribute::Posix(0o44)), "044");
    assert_eq!(parse_attributes(Attribute::Windows(0)), "NORMAL");
    assert_eq!(parse_attributes(Attribute::Windows(0x80)), "NORMAL");
    assert_eq!(parse_attributes(Attribute::Windows(0x1)), "READONLY");
    assert_eq!(parse_attributes(Attribute::Windows(0x27)), "READONLY, HIDDEN, SYSTEM, ARCHIVE");
    assert_eq!(parse_attributes(Attribute::Windows(0x22)), "HIDDEN, ARCHIVE");
    assert_eq!(parse_attributes(Attribute::Unknown), "UNKNOWN");
}

#[test]
fn long_line_layout() {
    let e = Entry {
        name: "test.txt".to_string(),
        modified: Timestamp { secs: 0, nanos: 0 },
        size: 2048,
        attribute: Attribute::Posix(0o644),
    };
    assert_eq!(
        format_long_line(&e, true, "Jan 01 00:00"),
        "test.txt                    2.0K size  modified: Jan 01 00:00    attributes: 644"
    );
    assert_eq!(
        format_long_line(&e, false, "Jan 01 00:00"),
        "test.txt                   2048B size  modified: Jan 01 00:00    attributes: 644"
    );
}

#[test]
fn long_entries_hold_name_size_and_attributes() {
    let entries = vec![Entry {
        name: "data.bin".to_string(),
        modified: Timestamp { secs: 1_700_000_000, nanos: 0 },
        size: 5 * 1024 * 1024,
        attribute: Attribute::Unknown,
    }];
    let lines = format_entries(entries, &options(false, false, false, false, true, false));
    assert!(lines[0].starts_with("data.bin            "));
    assert!(lines[0].contains(" 5242880B size  modified: "));
    assert!(lines[0].ends_with(" attributes: UNKNOWN"));
}

#[test]
fn directory_names_carry_slash() {
    let d = make_entry("src".to_string(), true, Timestamp { secs: 1, nanos: 2 }, 4096, Attribute::Posix(0o755));
    assert_eq!(d.name, "src/");
    assert_eq!(d.size, 4096);
    let f = make_entry("main.rs".to_string(), false, Timestamp { secs: 1, nanos: 2 }, 10, Attribute::Unknown);
    assert_eq!(f.name, "main.rs");
}

#[test]
fn timestamps_around_the_epoch() {
    assert_eq!(Timestamp::from_epoch_offset(false, 5, 7), Timestamp { secs: 5, nanos: 7 });
    assert_eq!(Timestamp::from_epoch_offset(true, 5, 0), Timestamp { secs: -5, nanos: 0 });
    assert_eq!(Timestamp::from_epoch_offset(true, 5, 250_000_000), Timestamp { secs: -6, nanos: 750_000_000 });
}

#[test]
fn code_point_order_of_lowered_names() {
    let a: Vec<char> = "apple".chars().collect();
    let b: Vec<char> = "apples".chars().collect();
    let c: Vec<char> = "banana".chars().collect();
    assert!(lex_less(&a, &b));
    assert!(!lex_less(&b, &a));
    assert!(lex_less(&b, &c));
    assert!(!lex_less(&a, &a));
    assert!(lex_less(&vec![], &a));
}
