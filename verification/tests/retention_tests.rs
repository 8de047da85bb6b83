use logrustate::compress::compress_file;
use logrustate::retention::{dated_copies_to_remove, is_dated_copy_chars};
use std::io::Read;

fn names(v: &[&str]) -> Vec<String> {
    v.iter().map(|x| x.to_string()).collect()
}

fn listing(v: &[(&str, u64)]) -> Vec<(String, u64)> {
    v.iter().map(|(n, m)| (n.to_string(), *m)).collect()
}

fn chars(x: &str) -> Vec<char> {
    x.chars().collect()
}

#[test]
fn dated_copy_names() {
    let n = chars("a.log");
    let f = "-%Y%m%d";
    assert!(is_dated_copy_chars(&chars("a.log-20231231"), &n, f));
    assert!(is_dated_copy_chars(&chars("a.log-20231231.gz"), &n, f));
    assert!(!is_dated_copy_chars(&chars("a.log"), &n, f));
    assert!(!is_dated_copy_chars(&chars("a.log.1"), &n, f));
    assert!(!is_dated_copy_chars(&chars("a.log_20231231"), &n, f));
    assert!(!is_dated_copy_chars(&chars("a.log-20231231.bz2"), &n, f));
    assert!(!is_dated_copy_chars(&chars("b.log-20231231"), &n, f));
    assert!(!is_dated_copy_chars(&chars("a.log"), &n, ""));
    let g = "-%b%d";
    assert!(is_dated_copy_chars(&chars("a.log-Jan31"), &n, g));
    assert!(is_dated_copy_chars(&chars("a.log-Feb01.gz"), &n, g));
    assert!(!is_dated_copy_chars(&chars("a.log-Foo01"), &n, g));
    let h = "-%Y%m%-d";
    assert!(is_dated_copy_chars(&chars("a.log-2024015"), &n, h));
    assert!(is_dated_copy_chars(&chars("a.log-20240115"), &n, h));
}

#[test]
fn oldest_dated_copies_go_beyond_rotate() {
    let files = listing(&[
        ("a.log", 900),
        ("a.log-20240102", 500),
        ("a.log-20231230.gz", 200),
        ("a.log-20240101.gz", 400),
        ("a.log-20231231.gz", 300),
        ("other.log-20200101", 10),
        ("a.log.1", 20),
    ]);
    let r = dated_copies_to_remove("/var/log", "a.log", "-%Y%m%d", 2, &files);
    assert_eq!(r, names(&["/var/log/a.log-20231230.gz", "/var/log/a.log-20231231.gz"]));
}

#[test]
fn copies_of_every_shape_of_the_format_count() {
    let files = listing(&[
        ("a.log-Jan30.gz", 100),
        ("a.log-Jan31.gz", 200),
        ("a.log-Feb01.gz", 300),
        ("a.log-Feb02", 400),
    ]);
    let r = dated_copies_to_remove("/l", "a.log", "-%b%d", 2, &files);
    assert_eq!(r, names(&["/l/a.log-Jan30.gz", "/l/a.log-Jan31.gz"]));
    let files = listing(&[("a.log-2024019", 1), ("a.log-20240110", 2), ("a.log-20240111", 3)]);
    let r = dated_copies_to_remove("", "a.log", "-%Y%m%-d", 1, &files);
    assert_eq!(r, names(&["a.log-2024019", "a.log-20240110"]));
}

#[test]
fn few_dated_copies_are_kept() {
    let files = listing(&[("a.log-20240101", 1), ("a.log-20240102", 2)]);
    assert!(dated_copies_to_remove("", "a.log", "-%Y%m%d", 7, &files).is_empty());
    assert!(dated_copies_to_remove("", "a.log", "-%Y%m%d", 2, &files).is_empty());
    let r = dated_copies_to_remove("", "a.log", "-%Y%m%d", 1, &files);
    assert_eq!(r, names(&["a.log-20240101"]));
    let r0 = dated_copies_to_remove("d", "a.log", "-%Y%m%d", 0, &files);
    assert_eq!(r0, names(&["d/a.log-20240101", "d/a.log-20240102"]));
}

#[test]
fn same_time_orders_by_name_and_repeats_count_once() {
    let files = listing(&[("a.log-20240102", 5), ("a.log-20240101", 5), ("a.log-20240101", 5)]);
    let r = dated_copies_to_remove("/d", "a.log", "-%Y%m%d", 1, &files);
    assert_eq!(r, names(&["/d/a.log-20240101"]));
}

#[test]
fn compressed_copy_is_gzip_of_the_content() {
    let data = b"line one\nline two\n".repeat(50);
    let gz = compress_file(&data);
    assert_ne!(gz, data);
    assert_eq!(&gz[..3], &[0x1f, 0x8b, 8]);
    let mut back = Vec::new();
    flate2::read::GzDecoder::new(&gz[..]).read_to_end(&mut back).unwrap();
    assert_eq!(back, data);
    let empty = compress_file(&[]);
    let mut back2 = Vec::new();
    flate2::read::GzDecoder::new(&empty[..]).read_to_end(&mut back2).unwrap();
    assert!(back2.is_empty());
}
