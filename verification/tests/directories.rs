//! Which files of a directory are read, in what order, and how much of them.

use vedavid_connector::builtins::{embed, BuiltinSource};
use vedavid_connector::compile::Tree;
use vedavid_connector::dashboards::{Builtin, Limits};
use vedavid_connector::reader::{
    is_dashboard_file, reading_order, DirectoryReader, FileText, Kind, Stamp, Verdict,
};
use vedavid_connector::watch::{steps_after, Step, Wake, DEBOUNCE_MILLIS};

fn limits(max_dashboard_bytes: u64, max_directory_bytes: u64) -> Limits {
    Limits {
        max_dashboard_bytes,
        max_directory_bytes,
        ..Limits::default()
    }
}

fn bytes(names: &[&str]) -> Vec<Vec<u8>> {
    names.iter().map(|n| n.as_bytes().to_vec()).collect()
}

#[test]
fn a_dashboard_file_has_one_of_two_extensions_and_is_not_hidden() {
    for name in ["a.yaml", "a.yml", "a.b.yaml", "\u{e9}.yml", "a..yaml", " .yml"] {
        assert!(is_dashboard_file(name.as_bytes()), "{name}");
    }
    for name in [
        "", ".", "yaml", ".yaml", ".yml", "..data", "..yaml", ".a.yaml", "a.yaml.", "a.YAML",
        "a.yaml~", "a.json", "ayaml", "a.yamll", "README.md",
    ] {
        assert!(!is_dashboard_file(name.as_bytes()), "{name}");
    }
}

#[test]
fn a_name_that_is_no_text_is_not_hidden() {
    assert!(is_dashboard_file(b".\xff.yaml"));
    assert!(is_dashboard_file(b"\xff.yml"));
    assert!(!is_dashboard_file(b".\xff"));
    assert!(!is_dashboard_file(b"a.\xffyaml"));
}

#[test]
fn files_are_read_in_the_order_of_their_names() {
    let names = bytes(&["b.yaml", ".a.yaml", "a.yml", "c.txt", "B.yaml", "b.yaml", "a.yaml"]);
    assert_eq!(reading_order(Kind::Mounted, &names), [4, 6, 2, 0, 5]);
    assert_eq!(reading_order(Kind::Mounted, &vec![]), Vec::<usize>::new());
}

#[test]
fn however_a_directory_is_listed_its_files_are_read_in_one_order() {
    let listed = ["b.yaml", "a.yml", "c.yaml", "a.b.yaml", "z.yml"];
    let mut sorted = listed;
    sorted.sort();
    for turn in 0..listed.len() {
        let mut names = bytes(&listed);
        names.rotate_left(turn);
        let read: Vec<Vec<u8>> = reading_order(Kind::Mounted, &names)
            .into_iter()
            .map(|i| names[i].clone())
            .collect();
        assert_eq!(read, bytes(&sorted));
    }
}

#[test]
fn the_sources_of_embedded_dashboards_are_yaml_only() {
    let names = bytes(&["b.yaml", ".hidden.yaml", "a.yml", "a.yaml", ".yaml"]);
    assert_eq!(reading_order(Kind::Embedded, &names), [1, 3, 0]);
}

#[test]
fn a_scan_takes_what_is_within_the_limits() {
    let mut reader = DirectoryReader::new(&limits(10, 30));
    assert_eq!(reader.measure("a", Some(10)), Verdict::Read);
    reader.accept("a".to_string(), Some("text of a".to_string()), Some(-5), 10);
    assert_eq!(reader.measure("b", Some(11)), Verdict::PassOver);
    assert_eq!(reader.measure("c", None), Verdict::PassOver);
    assert_eq!(reader.measure("d", Some(0)), Verdict::Read);
    reader.accept("d".to_string(), None, Some(1), 0);
    assert_eq!(reader.measure("e", Some(9)), Verdict::Read);
    reader.accept("e".to_string(), Some(String::new()), None, 9);
    let scan = reader.finish();
    assert_eq!(
        scan.files,
        [
            FileText { path: "a".to_string(), text: "text of a".to_string() },
            FileText { path: "e".to_string(), text: String::new() },
        ]
    );
    assert_eq!(
        scan.fingerprint,
        [
            Stamp { path: "a".to_string(), modified: -5, len: 10 },
            Stamp { path: "e".to_string(), modified: 0, len: 9 },
        ]
    );
    assert_eq!(scan.oversized, ["b"]);
}

#[test]
fn a_directory_over_its_limit_is_given_up() {
    let mut reader = DirectoryReader::new(&limits(10, 30));
    assert_eq!(reader.measure("a", Some(20)), Verdict::PassOver, "what is passed over counts");
    assert_eq!(reader.measure("b", Some(10)), Verdict::Read);
    assert_eq!(reader.measure("c", None), Verdict::PassOver);
    assert_eq!(reader.measure("d", Some(0)), Verdict::Read, "the limit itself is allowed");
    assert_eq!(reader.measure("e", Some(1)), Verdict::Abort);

    let mut reader = DirectoryReader::new(&limits(0, 0));
    assert_eq!(reader.measure("a", Some(0)), Verdict::Read);
    assert_eq!(reader.measure("b", Some(1)), Verdict::Abort);
}

#[test]
fn sizes_are_counted_without_overflow() {
    let mut reader = DirectoryReader::new(&limits(u64::MAX, u64::MAX - 1));
    assert_eq!(reader.measure("a", Some(u64::MAX - 1)), Verdict::Read);
    assert_eq!(reader.measure("b", Some(u64::MAX)), Verdict::Abort);

    let mut reader = DirectoryReader::new(&limits(u64::MAX, u64::MAX));
    assert_eq!(reader.measure("a", Some(u64::MAX)), Verdict::Read);
    assert_eq!(reader.measure("b", Some(u64::MAX)), Verdict::Read);
}

#[test]
fn the_bytes_that_a_scan_takes_are_bounded() {
    for max in [0, 5, 9, 100] {
        let mut reader = DirectoryReader::new(&limits(4, max));
        let mut aborted = false;
        for (n, len) in [3, 4, 1, 5, 2].into_iter().enumerate() {
            match reader.measure("x", Some(len)) {
                Verdict::Abort => {
                    aborted = true;
                    break;
                }
                Verdict::PassOver => assert_eq!(n, 3),
                Verdict::Read => reader.accept("x".to_string(), Some(String::new()), None, len),
            }
        }
        assert_eq!(aborted, max < 15);
        let taken: u64 = reader.finish().fingerprint.iter().map(|s| s.len).sum();
        assert!(taken <= max);
    }
}

fn source(path: &str, reply: Result<Tree, Vec<String>>) -> BuiltinSource {
    BuiltinSource { path: path.to_string(), reply }
}

fn tree(id: &str) -> Tree {
    Tree {
        id: id.to_string(),
        title: format!("Title of {id}"),
        hash: format!("hash of {id}"),
        schema: 3,
        json: "{}".to_string(),
    }
}

#[test]
fn sources_that_compile_are_embedded_in_their_order() {
    let builtin = |id: &str| Builtin {
        id: id.to_string(),
        title: format!("Title of {id}"),
        hash: format!("hash of {id}"),
        schema: 3,
        json: "{}".to_string(),
    };
    assert_eq!(embed(vec![]), Ok(vec![]));
    assert_eq!(
        embed(vec![source("b", Ok(tree("y"))), source("a", Ok(tree("x")))]),
        Ok(vec![builtin("y"), builtin("x")])
    );
}

#[test]
fn one_broken_source_embeds_nothing() {
    let remarks = |texts: &[&str]| Err(texts.iter().map(|t| t.to_string()).collect());
    let built = embed(vec![
        source("builtins/a.yaml", Ok(tree("a"))),
        source("builtins/b.yaml", remarks(&["E-001: no title", "E-010: no query"])),
        source("builtins/c.yaml", remarks(&["E-001: no title"])),
    ]);
    assert_eq!(
        built,
        Err(
            "the built-in dashboard builtins/b.yaml does not compile:\n  E-001: no title\n  \
             E-010: no query"
                .to_string()
        )
    );
    assert_eq!(
        embed(vec![source("a", remarks(&[]))]),
        Err("the built-in dashboard a does not compile:\n  ".to_string())
    );
}

#[test]
fn each_wait_ends_in_one_scan() {
    assert_eq!(DEBOUNCE_MILLIS, 500);
    assert_eq!(steps_after(Wake::PollElapsed), [Step::Scan]);
    assert_eq!(
        steps_after(Wake::Event),
        [Step::SleepDebounce, Step::DrainEvents, Step::Scan]
    );
    assert_eq!(
        steps_after(Wake::Unwatched),
        [Step::SleepPoll, Step::SleepDebounce, Step::DrainEvents, Step::Scan]
    );
}
