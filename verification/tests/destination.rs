use deepseek_harness::destination::{
    download_destination, first_free_name, numbered_name, unique_download_path,
};
use std::collections::HashSet;

fn stored(filename: &str, dir: &[&str]) -> String {
    unique_download_path(filename, |name: &str| dir.contains(&name))
}

#[test]
fn free_name_is_kept() {
    assert_eq!(stored("log.txt", &[]), "log.txt");
    assert_eq!(stored("log.txt", &["log (1).txt"]), "log.txt");
}

#[test]
fn taken_name_is_numbered_before_the_extension() {
    assert_eq!(stored("log.txt", &["log.txt"]), "log (1).txt");
    assert_eq!(stored("log.txt", &["log.txt", "log (1).txt"]), "log (2).txt");
    assert_eq!(stored("log.txt", &["log.txt", "log (2).txt"]), "log (1).txt");
    assert_eq!(stored("a.tar.gz", &["a.tar.gz"]), "a.tar (1).gz");
}

#[test]
fn names_without_an_extension_are_numbered_at_the_end() {
    assert_eq!(stored("README", &["README"]), "README (1)");
    assert_eq!(stored(".env", &[".env"]), ".env (1)");
    assert_eq!(stored("a.", &["a."]), "a (1).");
    assert_eq!(stored("...", &["..."]), ".. (1).");
}

#[test]
fn paths_are_numbered_by_their_last_component() {
    assert_eq!(stored("dir/b.txt", &["dir/b.txt"]), "b (1).txt");
    assert_eq!(stored("dir/b.txt/", &["dir/b.txt/"]), "b (1).txt");
    assert_eq!(stored("dir/b.txt/.//", &["dir/b.txt/.//"]), "b (1).txt");
    assert_eq!(stored("/a/.b", &["/a/.b"]), ".b (1)");
    assert_eq!(stored("./c.d", &["./c.d"]), "c (1).d");
    assert_eq!(stored("a/..b", &["a/..b"]), ". (1).b");
    assert_eq!(stored("ab:c.txt", &["ab:c.txt"]), "ab:c (1).txt");
    assert_eq!(stored("1:x", &["1:x"]), "1:x (1)");
}

#[test]
fn paths_that_name_no_file_are_numbered_as_downloads() {
    for path in ["", ".", "..", "/", "./.", "/.", "a/..", "a/../", "../."] {
        assert_eq!(stored(path, &[path]), "download (1)");
        assert_eq!(stored(path, &[path, "download (1)"]), "download (2)");
        assert_eq!(stored(path, &[]), path);
    }
}

#[test]
fn repeated_downloads_never_meet() {
    let mut dir: HashSet<String> = HashSet::new();
    for _ in 0..50 {
        let name = unique_download_path("x.log", |n: &str| dir.contains(n));
        assert!(name.ends_with(".log"));
        assert!(dir.insert(name));
    }
    assert!(dir.contains("x.log") && dir.contains("x (49).log"));
}

#[test]
fn numbers_go_on_until_a_name_is_free() {
    assert_eq!(unique_download_path("x", |n: &str| n != "x (9999)"), "x (9999)");
    let mut dir: HashSet<String> = HashSet::new();
    dir.insert("x".to_string());
    for n in 1..10_000 {
        dir.insert(format!("x ({})", n));
    }
    let name = unique_download_path("x", |n: &str| dir.contains(n));
    assert_eq!(name, "x (10000)");
    assert!(!dir.contains(&name));
    dir.insert(name);
    assert_eq!(unique_download_path("x", |n: &str| dir.contains(n)), "x (10001)");
}

#[test]
fn asking_twice_gives_the_same_name() {
    let dir = ["a.b", "a (1).b"];
    assert_eq!(stored("a.b", &dir), "a (2).b");
    assert_eq!(stored("a.b", &dir), stored("a.b", &dir));
}

#[test]
fn first_free_of_given_parts() {
    let taken = |n: &str| n == "f" || n == "s (1).e";
    assert_eq!(first_free_name("f", "s", Some("e"), taken), "s (2).e");
    assert_eq!(first_free_name("f", "s", None, taken), "s (1)");
    assert_eq!(first_free_name("g", "s", None, taken), "g");
}

#[test]
fn numbered_names() {
    assert_eq!(numbered_name("a", Some("txt"), 12), "a (12).txt");
    assert_eq!(numbered_name("a", None, 1), "a (1)");
}

#[test]
fn destination_of_an_address() {
    let url = "http://h/logs/session%20log.txt";
    assert_eq!(download_destination(url, |_: &str| false), "session log.txt");
    assert_eq!(
        download_destination(url, |n: &str| n == "session log.txt"),
        "session log (1).txt"
    );
    assert_eq!(
        download_destination("http://h/..%2f..%2fx.sh", |_: &str| false),
        ".._.._x.sh"
    );
}
