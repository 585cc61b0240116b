use linecount::config::Config;
use linecount::counter::Counter;
use linecount::report::Report;
use linecount::tree::{Directory, Entry, File, Line};
use linecount::walker::{read_dir, summarize};

fn config(extensions: &[&str], quiet: bool) -> Config {
    Config {
        targetpath: "/root".to_string(),
        extensions: extensions.iter().map(|e| e.to_string()).collect(),
        quiet,
    }
}

fn file(path: &str, lines: &[&str]) -> Entry {
    Entry::File(File {
        path: path.to_string(),
        name: path.rsplit('/').next().unwrap().to_string(),
        lines: Some(lines.iter().map(|l| Line::Text(l.to_string())).collect()),
    })
}

fn unopened(path: &str) -> Entry {
    Entry::File(File {
        path: path.to_string(),
        name: path.rsplit('/').next().unwrap().to_string(),
        lines: None,
    })
}

fn dir(path: &str, entries: Vec<Entry>) -> Directory {
    Directory { path: path.to_string(), entries }
}

fn a_rs() -> Entry {
    file("/root/a.rs", &["fn main() {", "println!(\\\"hi\\\");", "}"])
}

fn b_txt() -> Entry {
    file("/root/b.txt", &["some text", "more text"])
}

fn counts(counter: &Counter, extension: &str) -> Option<(Option<u32>, Option<u32>)> {
    counter.get(&extension.to_string())
}

#[test]
fn one_file_asked_for_and_one_not() {
    let root = dir("/root", vec![a_rs(), b_txt()]);
    let summary = summarize(&root, &config(&["rs"], true));
    assert_eq!(summary.line_count, Some(3));
    assert_eq!(summary.char_count, Some(29));
    assert_eq!(summary.counter.rows(), vec![("rs".to_string(), Some(3), Some(29))]);
    assert!(summary.log.is_empty());
}

#[test]
fn no_extensions_asked_for() {
    let root = dir(
        "/root",
        vec![a_rs(), b_txt(), file("/root/Makefile", &["all:"]), Entry::Directory(dir(
            "/root/sub",
            vec![file("/root/sub/c.rs", &["hello"])],
        ))],
    );
    let summary = summarize(&root, &config(&[], true));
    assert_eq!(summary.line_count, Some(0));
    assert_eq!(summary.char_count, Some(0));
    assert!(summary.counter.rows().is_empty());
    assert!(summary.log.is_empty());
}

#[test]
fn a_file_counts_the_same_at_any_depth() {
    let nested = dir(
        "/root",
        vec![Entry::Directory(dir("/root/sub", vec![file("/root/sub/c.rs", &["hello"])]))],
    );
    let flat = dir("/root", vec![file("/root/c.rs", &["hello"])]);
    let cfg = config(&["rs"], true);
    let deep = summarize(&nested, &cfg);
    let shallow = summarize(&flat, &cfg);
    assert_eq!((deep.line_count, deep.char_count), (Some(1), Some(5)));
    assert_eq!((shallow.line_count, shallow.char_count), (Some(1), Some(5)));
    assert_eq!(deep.counter.rows(), shallow.counter.rows());
    assert_eq!(deep.counter.rows(), vec![("rs".to_string(), Some(1), Some(5))]);
}

#[test]
fn read_dir_returns_the_totals_of_the_subtree() {
    let sub = dir("/root/sub", vec![file("/root/sub/c.rs", &["hello"])]);
    let cfg = config(&["rs"], true);
    let mut counter = Counter::new(&cfg);
    let mut log = Vec::new();
    assert_eq!(read_dir(&sub, &mut counter, &cfg, &mut log), (Some(1), Some(5)));
    let root = dir("/root", vec![a_rs()]);
    assert_eq!(read_dir(&root, &mut counter, &cfg, &mut log), (Some(3), Some(29)));
    assert_eq!(counts(&counter, "rs"), Some((Some(4), Some(34))));
}

#[test]
fn totals_are_sums_over_all_files_asked_for() {
    let root = dir(
        "/root",
        vec![
            a_rs(),
            b_txt(),
            file("/root/notes.md", &["# title", "", "body"]),
            Entry::Directory(dir(
                "/root/src",
                vec![
                    file("/root/src/lib.rs", &["  pub mod a;  ", "", "pub mod b;"]),
                    file("/root/src/readme.txt", &["x"]),
                    Entry::Directory(dir(
                        "/root/src/deep",
                        vec![file("/root/src/deep/mod.rs", &["// nothing", "   "])],
                    )),
                ],
            )),
        ],
    );
    let summary = summarize(&root, &config(&["rs", "txt"], true));
    assert_eq!(summary.line_count, Some(3 + 2 + 2 + 1 + 1));
    assert_eq!(summary.char_count, Some(29 + 18 + 20 + 1 + 10));
    assert_eq!(
        summary.counter.rows(),
        vec![("rs".to_string(), Some(6), Some(59)), ("txt".to_string(), Some(3), Some(19))]
    );
}

#[test]
fn each_extension_has_only_its_own_files() {
    let root = dir(
        "/root",
        vec![
            file("/root/a.rs", &["one"]),
            file("/root/a.rsx", &["four"]),
            file("/root/a.RS", &["seven77"]),
            file("/root/rs", &["no extension"]),
            file("/root/a.txt", &["ab"]),
        ],
    );
    let summary = summarize(&root, &config(&["rs", "txt", "md"], true));
    assert_eq!(summary.line_count, Some(2));
    assert_eq!(summary.char_count, Some(5));
    assert_eq!(counts(&summary.counter, "rs"), Some((Some(1), Some(3))));
    assert_eq!(counts(&summary.counter, "txt"), Some((Some(1), Some(2))));
    assert_eq!(counts(&summary.counter, "md"), Some((Some(0), Some(0))));
    assert_eq!(counts(&summary.counter, "rsx"), None);
}

#[test]
fn files_not_asked_for_change_nothing() {
    let cfg = config(&["rs"], false);
    let with = dir(
        "/root",
        vec![file("/root/Makefile", &["all:"]), a_rs(), b_txt(), unopened("/root/c.txt")],
    );
    let without = dir("/root", vec![a_rs()]);
    let a = summarize(&with, &cfg);
    let b = summarize(&without, &cfg);
    assert_eq!((a.line_count, a.char_count), (b.line_count, b.char_count));
    assert_eq!(a.counter.rows(), b.counter.rows());
    assert_eq!(a.log, b.log);
}

#[test]
fn the_order_of_the_entries_does_not_change_the_totals() {
    let cfg = config(&["rs", "txt"], true);
    let sub = || Entry::Directory(dir("/root/sub", vec![file("/root/sub/c.rs", &["hello"])]));
    let one = summarize(&dir("/root", vec![a_rs(), b_txt(), sub()]), &cfg);
    let two = summarize(&dir("/root", vec![sub(), b_txt(), a_rs()]), &cfg);
    let three = summarize(&dir("/root", vec![b_txt(), a_rs(), sub()]), &cfg);
    assert_eq!((one.line_count, one.char_count), (Some(6), Some(52)));
    assert_eq!((two.line_count, two.char_count), (Some(6), Some(52)));
    assert_eq!((three.line_count, three.char_count), (Some(6), Some(52)));
    assert_eq!(one.counter.rows(), two.counter.rows());
    assert_eq!(one.counter.rows(), three.counter.rows());
}

#[test]
fn a_file_that_cannot_be_opened_counts_nothing_and_the_walk_goes_on() {
    let root = dir("/root", vec![a_rs(), unopened("/root/locked.rs"), file("/root/z.rs", &["z"])]);
    let summary = summarize(&root, &config(&["rs"], true));
    assert_eq!(summary.line_count, Some(4));
    assert_eq!(summary.char_count, Some(30));
    assert_eq!(counts(&summary.counter, "rs"), Some((Some(4), Some(30))));
    assert_eq!(summary.log, vec![Report::OpenError("/root/locked.rs".to_string())]);
}

#[test]
fn entries_that_cannot_be_read_or_are_of_unknown_type_are_reported_and_skipped() {
    let root = dir(
        "/root",
        vec![
            Entry::Unreadable("permission denied".to_string()),
            a_rs(),
            Entry::Other("/root/socket".to_string()),
            file("/root/z.rs", &["z"]),
        ],
    );
    let summary = summarize(&root, &config(&["rs"], true));
    assert_eq!((summary.line_count, summary.char_count), (Some(4), Some(30)));
    assert_eq!(
        summary.log,
        vec![
            Report::EntryError("permission denied".to_string()),
            Report::UnknownType("/root/socket".to_string()),
        ]
    );
}

#[test]
fn progress_is_reported_depth_first_unless_quiet() {
    let tree = || {
        dir(
            "/root",
            vec![
                a_rs(),
                Entry::Directory(dir(
                    "/root/sub",
                    vec![
                        file("/root/sub/c.rs", &["hello"]),
                        unopened("/root/sub/d.rs"),
                        Entry::Directory(dir("/root/sub/empty", vec![])),
                    ],
                )),
                b_txt(),
                file("/root/e.rs", &["e"]),
            ],
        )
    };
    let loud = summarize(&tree(), &config(&["rs"], false));
    assert_eq!(
        loud.log,
        vec![
            Report::EnterDirectory("/root".to_string()),
            Report::ParseFile("/root/a.rs".to_string()),
            Report::EnterDirectory("/root/sub".to_string()),
            Report::ParseFile("/root/sub/c.rs".to_string()),
            Report::ParseFile("/root/sub/d.rs".to_string()),
            Report::OpenError("/root/sub/d.rs".to_string()),
            Report::EnterDirectory("/root/sub/empty".to_string()),
            Report::ParseFile("/root/e.rs".to_string()),
        ]
    );
    let quiet = summarize(&tree(), &config(&["rs"], true));
    assert_eq!(quiet.log, vec![Report::OpenError("/root/sub/d.rs".to_string())]);
    assert_eq!((loud.line_count, loud.char_count), (quiet.line_count, quiet.char_count));
    assert_eq!((loud.line_count, loud.char_count), (Some(5), Some(35)));
    assert_eq!(loud.counter.rows(), quiet.counter.rows());
}

#[test]
fn read_dir_adds_to_the_log_and_to_the_counter() {
    let cfg = config(&["rs"], false);
    let mut counter = Counter::new(&cfg);
    counter.record(&"rs".to_string(), Some(10), Some(100));
    let mut log = vec![Report::EntryError("before".to_string())];
    let root = dir("/root", vec![a_rs()]);
    assert_eq!(read_dir(&root, &mut counter, &cfg, &mut log), (Some(3), Some(29)));
    assert_eq!(counts(&counter, "rs"), Some((Some(13), Some(129))));
    assert_eq!(
        log,
        vec![
            Report::EntryError("before".to_string()),
            Report::EnterDirectory("/root".to_string()),
            Report::ParseFile("/root/a.rs".to_string()),
        ]
    );
}

#[test]
fn an_empty_directory_counts_nothing() {
    let summary = summarize(&dir("/root", vec![]), &config(&["rs"], false));
    assert_eq!((summary.line_count, summary.char_count), (Some(0), Some(0)));
    assert_eq!(summary.counter.rows(), vec![("rs".to_string(), Some(0), Some(0))]);
    assert_eq!(summary.log, vec![Report::EnterDirectory("/root".to_string())]);
}

#[test]
fn a_counter_with_entries_of_its_own_keeps_them() {
    let cfg = config(&["rs"], true);
    let mut counter = Counter::new(&config(&["rs", "txt"], true));
    counter.record(&"txt".to_string(), Some(7), Some(70));
    let mut log = Vec::new();
    let root = dir("/root", vec![a_rs(), b_txt()]);
    assert_eq!(read_dir(&root, &mut counter, &cfg, &mut log), (Some(3), Some(29)));
    assert_eq!(counts(&counter, "rs"), Some((Some(3), Some(29))));
    assert_eq!(counts(&counter, "txt"), Some((Some(7), Some(70))));
}

#[test]
fn an_extension_asked_for_twice_is_counted_once() {
    let root = dir("/root", vec![a_rs()]);
    let summary = summarize(&root, &config(&["rs", "rs"], true));
    assert_eq!((summary.line_count, summary.char_count), (Some(3), Some(29)));
    assert_eq!(summary.counter.rows(), vec![("rs".to_string(), Some(3), Some(29))]);
}

#[test]
fn a_grand_total_that_does_not_fit_is_none() {
    let cfg = config(&["rs"], true);
    let mut counter = Counter::new(&cfg);
    counter.record(&"rs".to_string(), Some(u32::MAX - 2), Some(u32::MAX - 29));
    let mut log = Vec::new();
    let root = dir("/root", vec![a_rs()]);
    assert_eq!(read_dir(&root, &mut counter, &cfg, &mut log), (Some(3), Some(29)));
    assert_eq!(counts(&counter, "rs"), Some((None, Some(u32::MAX))));
}
