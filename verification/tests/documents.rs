//! From a document and the compiler's reply to the entry that is held of it.

use vedavid_connector::assembly::assemble;
use vedavid_connector::catalog::Entries;
use vedavid_connector::compile::{
    compile, contested_entry, declared_id, entry_from, Compiled, Outcome, Tree, MAX_DIAGNOSTICS,
};
use vedavid_connector::dashboards::{
    Builtin, Config, Diagnostic, Entry, Limits, Source, SourceFile, Status,
};

fn id_of(yaml: &str) -> Option<String> {
    declared_id(yaml)
}

fn remark(n: usize, error: bool) -> Diagnostic {
    Diagnostic {
        code: format!("E-{n:03}"),
        path: format!("elements[{n}]"),
        message: format!("remark {n}"),
        error,
    }
}

fn tree(id: &str, hash: &str) -> Tree {
    Tree {
        id: id.to_string(),
        title: format!("Title of {id}"),
        hash: hash.to_string(),
        schema: 7,
        json: format!("{{\"id\":\"{id}\"}}"),
    }
}

fn compiled(id: &str, hash: &str) -> Outcome {
    Outcome {
        tree: Some(tree(id, hash)),
        diagnostics: vec![remark(1, false)],
    }
}

fn not_compiled(errors: usize) -> Outcome {
    Outcome {
        tree: None,
        diagnostics: (0..errors).map(|n| remark(n, true)).collect(),
    }
}

fn file(path: &str, text: &str, outcome: Outcome) -> SourceFile {
    SourceFile {
        path: path.to_string(),
        text: text.to_string(),
        outcome,
    }
}

fn ids(entries: &Entries) -> Vec<String> {
    (0..entries.len()).map(|i| entries.at(i).id.clone()).collect()
}

#[test]
fn an_id_is_read_from_the_first_line_that_starts_with_its_key() {
    assert_eq!(id_of("id: team-api"), Some("team-api".to_string()));
    assert_eq!(id_of("version: 1\nid: a\nid: b\n"), Some("a".to_string()));
    assert_eq!(id_of("id:a"), Some("a".to_string()));
    assert_eq!(id_of("version: 1\r\nid: a\r\ntitle: b\r\n"), Some("a".to_string()));
    assert_eq!(id_of("\n\nid:\ta b \t\n"), Some("a b".to_string()));
    assert_eq!(id_of("id: caf\u{e9}\u{a0}"), Some("caf\u{e9}".to_string()));
}

#[test]
fn quotation_marks_around_an_id_are_cut_off() {
    assert_eq!(id_of("id: \"a\""), Some("a".to_string()));
    assert_eq!(id_of("id: 'a'"), Some("a".to_string()));
    assert_eq!(id_of("id: '\"a'"), Some("\"a".to_string()));
    assert_eq!(id_of("id: \"it's\""), Some("it's".to_string()));
    assert_eq!(id_of("id: \"a"), Some("a".to_string()), "a mark that is not closed");
    assert_eq!(id_of("id: a'"), Some("a".to_string()));
    assert_eq!(id_of("id: ' a '"), Some(" a ".to_string()));
    assert_eq!(id_of("id: a'b"), Some("a'b".to_string()));
}

#[test]
fn marks_that_do_not_enclose_the_value_are_trimmed_at_its_ends() {
    assert_eq!(id_of("id: \"\"a\"\""), Some("a".to_string()));
    assert_eq!(id_of("id: ''team-api''"), Some("team-api".to_string()));
    assert_eq!(id_of("id: \"a\"b"), Some("a\"b".to_string()));
    assert_eq!(id_of("id: \"team-api\"-staging"), Some("team-api\"-staging".to_string()));
    assert_eq!(id_of("id: 'it''s'"), Some("it''s".to_string()));
    assert_eq!(id_of("id: \"a\"# b"), Some("a\"# b".to_string()));
    assert_eq!(id_of("id: 'a' b # c"), Some("a' b".to_string()));
    assert_eq!(id_of("id: \"\""), None);
    assert_eq!(id_of("id: '\"' # c"), Some("\"".to_string()));
}

#[test]
fn an_id_with_neither_comment_nor_quotes_is_what_is_written() {
    for value in ["a", " a b ", "\u{2003}a\u{a0}", "'a", "a''", "\"'a", "a: b", "!!str a", "&x a", "a#", "", "'", "\t"] {
        let written = value.trim().trim_matches(['"', '\''].as_ref()).to_string();
        let expected = Some(written).filter(|id| !id.is_empty());
        assert_eq!(id_of(&format!("version: 1\nid:{value}\n")), expected, "{value:?}");
    }
}

#[test]
fn a_comment_after_an_id_is_cut_off() {
    assert_eq!(id_of("id: team-api # ours"), Some("team-api".to_string()));
    assert_eq!(id_of("id: team-api\t#\r\n"), Some("team-api".to_string()));
    assert_eq!(id_of("id: \"team-api\" # ours"), Some("team-api".to_string()));
    assert_eq!(id_of("id: 'team-api' # it's ours"), Some("team-api".to_string()));
    assert_eq!(id_of("id: 'a # b' # c"), Some("a # b".to_string()));
    assert_eq!(id_of("id: \"team-api # ours"), Some("team-api".to_string()));
    assert_eq!(id_of("id: a#b"), Some("a#b".to_string()), "no white space before the sign");
    assert_eq!(id_of("id: a#b #c # d"), Some("a#b".to_string()));
    assert_eq!(id_of("id: a b # c"), Some("a b".to_string()));
    assert_eq!(id_of("id: # none"), None);
    assert_eq!(id_of("id:\t# none"), None);
    assert_eq!(id_of("id:#a"), Some("#a".to_string()), "no blank before the sign");
    assert_eq!(id_of("id: a\u{a0}# b"), Some("a\u{a0}# b".to_string()), "no blank either");
}

#[test]
fn other_spellings_of_the_key_are_not_read() {
    for yaml in ["\"id\": a", "id : a", "\u{feff}id: a", "{id: a}"] {
        assert_eq!(id_of(yaml), None, "{yaml:?}");
    }
}

#[test]
fn a_document_may_declare_no_id() {
    assert_eq!(id_of(""), None);
    assert_eq!(id_of("id"), None);
    assert_eq!(id_of("id:"), None);
    assert_eq!(id_of("id: \nid: a"), None, "the first such line decides");
    assert_eq!(id_of("id: ''"), None);
    assert_eq!(id_of(" id: a"), None);
    assert_eq!(id_of("ID: a"), None);
    assert_eq!(id_of("title: x id: a"), None);
    assert_eq!(id_of("a\rid: b"), None, "a carriage return alone ends no line");
}

#[test]
fn a_compiled_document_has_an_authoritative_id() {
    let c = compile("id: declared\n", &compiled("authoritative", "h"));
    assert_eq!(c.id, Some("authoritative".to_string()));
    assert_eq!(c.tree, Some(tree("authoritative", "h")));
    assert_eq!(c.diagnostics, vec![], "warnings are left out");
}

#[test]
fn a_document_that_did_not_compile_keeps_the_id_it_declares_and_its_errors() {
    let outcome = Outcome {
        tree: None,
        diagnostics: vec![remark(1, false), remark(2, true), remark(3, false), remark(4, true)],
    };
    let c = compile("id: declared\n", &outcome);
    assert_eq!(c.id, Some("declared".to_string()));
    assert_eq!(c.tree, None);
    assert_eq!(c.diagnostics, vec![remark(2, true), remark(4, true)]);
    assert_eq!(compile("title: none\n", &outcome).id, None);
}

#[test]
fn errors_beyond_the_first_ten_are_counted() {
    assert_eq!(MAX_DIAGNOSTICS, 10);
    for (count, carried, left_out) in [(0, 0, 0), (9, 9, 0), (10, 10, 0), (11, 10, 1), (25, 10, 15)] {
        let c = compile("id: a", &not_compiled(count));
        let e = entry_from("a".to_string(), c, &Entries::new());
        assert_eq!(e.status, Status::Failed);
        assert_eq!(e.diagnostics.len(), carried);
        assert_eq!(e.diagnostics_truncated, left_out);
        for (n, d) in e.diagnostics.iter().enumerate() {
            assert_eq!(*d, remark(n, true));
        }
    }
}

#[test]
fn an_entry_says_how_its_document_fared() {
    let served = entry_from("a".to_string(), compile("", &compiled("a", "h1")), &Entries::new());
    assert_eq!(
        served,
        Entry {
            id: "a".to_string(),
            title: "Title of a".to_string(),
            hash: "h1".to_string(),
            schema: 7,
            source: Source::Mounted,
            status: Status::Okay,
            tree_json: Some("{\"id\":\"a\"}".to_string()),
            diagnostics: vec![],
            diagnostics_truncated: 0,
        }
    );
    assert_eq!(served.identity(), ("a", "h1", Status::Okay, 0));

    let held = Entries::new().insert(served.clone());
    let stale = entry_from("a".to_string(), compile("id: a", &not_compiled(12)), &held);
    assert_eq!(
        stale,
        Entry {
            status: Status::Stale,
            diagnostics: (0..10).map(|n| remark(n, true)).collect(),
            diagnostics_truncated: 2,
            ..served.clone()
        }
    );
    assert!(!stale.same_identity(&served));
    assert!(stale.same_identity(&Entry { title: String::new(), ..stale.clone() }));

    let failed = entry_from("b".to_string(), compile("id: b", &not_compiled(1)), &held);
    assert_eq!(failed.status, Status::Failed);
    assert_eq!(failed.tree_json, None);
    let held = held.insert(failed);
    let again = entry_from("b".to_string(), compile("id: b", &not_compiled(1)), &held);
    assert_eq!(again.status, Status::Failed, "there is no tree to keep");
}

#[test]
fn a_compiled_document_carries_no_errors() {
    let c = Compiled {
        id: Some("a".to_string()),
        tree: Some(tree("a", "h")),
        diagnostics: vec![remark(1, true)],
    };
    let e = entry_from("a".to_string(), c, &Entries::new());
    assert_eq!((e.status, e.diagnostics.len()), (Status::Okay, 0));
}

#[test]
fn a_contested_entry_names_its_files() {
    let paths = vec!["/d/a.yaml".to_string(), "/d/b.yaml".to_string(), "/d/c.yml".to_string()];
    let e = contested_entry("x".to_string(), &paths);
    assert_eq!(e.status, Status::Failed);
    assert_eq!(
        e.diagnostics,
        vec![Diagnostic {
            code: "E-100".to_string(),
            path: String::new(),
            message: "`x` is declared by more than one file: /d/a.yaml, /d/b.yaml, /d/c.yml"
                .to_string(),
            error: true,
        }]
    );
}

#[test]
fn the_id_comes_from_the_document_and_not_from_the_file_name() {
    let config = Config::default();
    let files = |a: &str, b: &str| {
        vec![
            file(a, "id: x", compiled("x", "1")),
            file(b, "id: y", not_compiled(1)),
            file("n.yaml", "junk", not_compiled(1)),
        ]
    };
    let one = assemble(&config, &vec![], &files("a.yaml", "b.yaml"), &Entries::new());
    let mut turned = files("z.yml", "x.yaml");
    turned.reverse();
    let two = assemble(&config, &vec![], &turned, &Entries::new());
    assert_eq!(ids(&one), ["x", "y"]);
    assert_eq!(ids(&one), ids(&two));
    assert!(one.same_as(&two));
    for i in 0..one.len() {
        assert_eq!(one.at(i), two.at(i));
    }
}

#[test]
fn a_file_that_names_no_id_adds_nothing() {
    let config = Config::default();
    let with = vec![
        file("a.yaml", "id: x", compiled("x", "1")),
        file("b.yaml", "title: only", not_compiled(3)),
        file("c.yaml", "id: y", compiled("y", "2")),
    ];
    let without = vec![
        file("a.yaml", "id: x", compiled("x", "1")),
        file("c.yaml", "id: y", compiled("y", "2")),
    ];
    let a = assemble(&config, &vec![], &with, &Entries::new());
    let b = assemble(&config, &vec![], &without, &Entries::new());
    assert_eq!(ids(&a), ids(&b));
    assert!(a.same_as(&b));
}

#[test]
fn the_first_ids_stay_under_the_limit() {
    let config = Config {
        limits: Limits { max_dashboards: 2, ..Limits::default() },
        ..Config::default()
    };
    let builtins = vec![Builtin {
        id: "m".to_string(),
        title: "M".to_string(),
        hash: "m".to_string(),
        schema: 1,
        json: "{}".to_string(),
    }];
    let files = vec![
        file("1.yaml", "id: z", compiled("z", "1")),
        file("2.yaml", "id: \u{e9}", compiled("\u{e9}", "1")),
        file("3.yaml", "id: B", not_compiled(1)),
    ];
    let kept = assemble(&config, &builtins, &files, &Entries::new());
    assert_eq!(ids(&kept), ["B", "m"]);
}

#[test]
fn entries_are_held_by_their_ids() {
    let e = |id: &str, hash: &str| {
        entry_from(id.to_string(), compile("", &compiled(id, hash)), &Entries::new())
    };
    let none = Entries::new();
    assert_eq!(none.len(), 0);
    assert!(none.get("a").is_none());
    let mut all = none;
    for id in ["m", "", "z", "a", "\u{10000}", "\u{ffff}", "ab"] {
        all = all.insert(e(id, "1"));
    }
    assert_eq!(ids(&all), ["", "a", "ab", "m", "z", "\u{ffff}", "\u{10000}"]);
    assert_eq!(all.get("ab").map(|e| e.hash.as_str()), Some("1"));
    let all = all.insert(e("ab", "2"));
    assert_eq!(all.len(), 7);
    assert_eq!(all.get("ab").map(|e| e.hash.as_str()), Some("2"));
    assert!(all.get("abc").is_none());
    assert_eq!(ids(&all.keep_first(3)), ["", "a", "ab"]);
}

#[test]
fn inventories_differ_in_what_the_relay_compares() {
    let e = |id: &str, hash: &str| {
        entry_from(id.to_string(), compile("", &compiled(id, hash)), &Entries::new())
    };
    let one = Entries::new().insert(e("a", "1")).insert(e("b", "1"));
    let same = Entries::new().insert(e("b", "1")).insert(e("a", "1"));
    assert!(one.same_as(&same));
    assert!(!one.same_as(&Entries::new().insert(e("a", "1"))));
    assert!(!one.same_as(&Entries::new().insert(e("a", "1")).insert(e("b", "2"))));
    assert!(!one.same_as(&Entries::new().insert(e("a", "1")).insert(e("c", "1"))));
    let retitled = Entry { title: "Other".to_string(), ..e("b", "1") };
    assert!(one.same_as(&Entries::new().insert(e("a", "1")).insert(retitled)));
}
