use linecount::config::Config;
use linecount::counter::Counter;

fn config(extensions: &[&str]) -> Config {
    Config {
        targetpath: ".".to_string(),
        extensions: extensions.iter().map(|e| e.to_string()).collect(),
        quiet: true,
    }
}

#[test]
fn every_extension_starts_at_zero() {
    let counter = Counter::new(&config(&["rs", "txt"]));
    assert_eq!(counter.get(&"rs".to_string()), Some((Some(0), Some(0))));
    assert_eq!(counter.get(&"txt".to_string()), Some((Some(0), Some(0))));
    assert_eq!(counter.get(&"md".to_string()), None);
}

#[test]
fn no_extensions_no_entries() {
    let counter = Counter::new(&config(&[]));
    assert!(counter.rows().is_empty());
    assert_eq!(counter.get(&"rs".to_string()), None);
}

#[test]
fn an_extension_named_twice_has_one_entry() {
    let counter = Counter::new(&config(&["rs", "txt", "rs", "rs", "txt"]));
    assert_eq!(
        counter.rows(),
        vec![("rs".to_string(), Some(0), Some(0)), ("txt".to_string(), Some(0), Some(0))]
    );
}

#[test]
fn record_adds_to_what_is_there() {
    let mut counter = Counter::new(&config(&["rs", "txt"]));
    counter.record(&"rs".to_string(), Some(3), Some(29));
    assert_eq!(counter.get(&"rs".to_string()), Some((Some(3), Some(29))));
    assert_eq!(counter.get(&"txt".to_string()), Some((Some(0), Some(0))));
    counter.record(&"rs".to_string(), Some(1), Some(5));
    counter.record(&"txt".to_string(), Some(2), Some(7));
    assert_eq!(counter.get(&"rs".to_string()), Some((Some(4), Some(34))));
    assert_eq!(counter.get(&"txt".to_string()), Some((Some(2), Some(7))));
    assert_eq!(
        counter.rows(),
        vec![("rs".to_string(), Some(4), Some(34)), ("txt".to_string(), Some(2), Some(7))]
    );
}

#[test]
fn a_count_that_no_longer_fits_stays_so() {
    let mut counter = Counter::new(&config(&["rs"]));
    counter.record(&"rs".to_string(), Some(u32::MAX), Some(u32::MAX - 1));
    assert_eq!(counter.get(&"rs".to_string()), Some((Some(u32::MAX), Some(u32::MAX - 1))));
    counter.record(&"rs".to_string(), Some(1), Some(1));
    assert_eq!(counter.get(&"rs".to_string()), Some((None, Some(u32::MAX))));
    counter.record(&"rs".to_string(), Some(0), Some(1));
    assert_eq!(counter.get(&"rs".to_string()), Some((None, None)));
    counter.record(&"rs".to_string(), Some(0), Some(0));
    assert_eq!(counter.get(&"rs".to_string()), Some((None, None)));
}

#[test]
fn entries_are_told_apart_by_their_whole_text() {
    let mut counter = Counter::new(&config(&["rs", "RS", "r"]));
    counter.record(&"RS".to_string(), Some(1), Some(2));
    assert_eq!(counter.get(&"rs".to_string()), Some((Some(0), Some(0))));
    assert_eq!(counter.get(&"RS".to_string()), Some((Some(1), Some(2))));
    assert_eq!(counter.get(&"r".to_string()), Some((Some(0), Some(0))));
}
