//! The settings, as the environment gives them.

use vedavid_connector::config::{DEFAULT_DIR, DEFAULT_POLL};
use vedavid_connector::dashboards::{Config, Environment, Limits};
use vedavid_connector::text::{is_str_before, names, parse_u64, trim_range, Class};

fn set(value: &str) -> Option<String> {
    Some(value.to_string())
}

fn nothing_set() -> Environment {
    Environment::default()
}

#[test]
fn with_nothing_set_the_settings_are_the_defaults() {
    let c = Config::from_env(nothing_set());
    assert!(c.enabled);
    assert_eq!(c.path, "/etc/vedavid/dashboards");
    assert_eq!(c.path, DEFAULT_DIR);
    assert_eq!(c.poll, 30);
    assert_eq!(c.poll, DEFAULT_POLL);
    assert!(c.builtins);
    assert_eq!(c.cluster_label, "");
    assert!(c.sources.is_empty());
    assert_eq!(
        c.limits,
        Limits {
            max_dashboards: 100,
            max_dashboard_bytes: 262144,
            max_directory_bytes: 4194304,
        }
    );
    assert_eq!(c.limits, Limits::default());
    assert_eq!(c.validate(), Ok(()));
}

#[test]
fn each_variable_sets_its_setting() {
    let c = Config::from_env(Environment {
        enabled: set("false"),
        dir: set("/srv/dashboards"),
        poll_seconds: set("5"),
        builtins: set("false"),
        cluster_label: set("prod-eu"),
        sources: set(" one, two ,,three"),
        max_dashboards: set("7"),
        max_dashboard_bytes: set("1024"),
        max_directory_bytes: set("+2048"),
    });
    assert!(!c.enabled);
    assert_eq!(c.path, "/srv/dashboards");
    assert_eq!(c.poll, 5);
    assert!(!c.builtins);
    assert_eq!(c.cluster_label, "prod-eu");
    assert_eq!(c.sources, ["one", "two", "three"]);
    assert_eq!(
        c.limits,
        Limits {
            max_dashboards: 7,
            max_dashboard_bytes: 1024,
            max_directory_bytes: 2048,
        }
    );
}

#[test]
fn a_switch_is_off_only_where_it_says_false() {
    for (value, on) in [("false", false), ("true", true), ("", true), ("False", true), (" false", true), ("0", true)] {
        let c = Config::from_env(Environment {
            enabled: set(value),
            builtins: set(value),
            ..nothing_set()
        });
        assert_eq!((c.enabled, c.builtins), (on, on), "{value:?}");
    }
}

#[test]
fn a_number_that_is_none_leaves_the_default() {
    for value in ["", "-1", "ten", "1.5", " 1", "1 ", "0x10", "1_000", "18446744073709551616"] {
        let c = Config::from_env(Environment {
            poll_seconds: set(value),
            max_dashboards: set(value),
            max_dashboard_bytes: set(value),
            max_directory_bytes: set(value),
            ..nothing_set()
        });
        assert_eq!(c.poll, 30, "{value:?}");
        assert_eq!(c.limits, Limits::default(), "{value:?}");
    }
}

#[test]
fn numbers_are_read_as_the_standard_library_reads_them() {
    for text in [
        "0", "00", "+0", "-0", "+", "-", "", "++1", "+-1", "9", "10", "007", "18446744073709551615",
        "18446744073709551616", "18446744073709551619", "18446744073709551620",
        "99999999999999999999", "0000000000000000000000000000001", "1a", "a1", "\u{661}", "1\u{0}",
    ] {
        assert_eq!(parse_u64(text), text.parse::<u64>().ok(), "{text:?}");
    }
    assert_eq!(parse_u64("18446744073709551615"), Some(u64::MAX));
}

#[test]
fn a_list_of_names_holds_no_empty_one() {
    assert_eq!(names(""), Vec::<String>::new());
    assert_eq!(names(" , ,\t,"), Vec::<String>::new());
    assert_eq!(names("a"), ["a"]);
    assert_eq!(names(",a b , c,"), ["a b", "c"]);
    assert_eq!(names("\u{2003}x\u{a0},\u{e9}"), ["x", "\u{e9}"]);
}

#[test]
fn white_space_is_what_unicode_says_it_is() {
    for n in 0..=0x10ffff {
        if let Some(c) = char::from_u32(n) {
            assert_eq!(Class::Space.contains(c), c.is_whitespace(), "{n:#x}");
            assert_eq!(Class::Blank.contains(c), c == ' ' || c == '\t', "{n:#x}");
            assert_eq!(Class::Quote.contains(c), c == '"' || c == '\'', "{n:#x}");
        }
    }
}

#[test]
fn a_stretch_of_text_is_trimmed_at_both_ends() {
    let chars: Vec<char> = "  a b  ".chars().collect();
    assert_eq!(trim_range(&chars, 0, 7, Class::Space), (2, 5));
    assert_eq!(trim_range(&chars, 0, 7, Class::Quote), (0, 7));
    assert_eq!(trim_range(&chars, 3, 4, Class::Space), (4, 4));
    assert_eq!(trim_range(&chars, 7, 7, Class::Space), (7, 7));
}

#[test]
fn strings_are_ordered_as_the_standard_library_orders_them() {
    let all = ["", "a", "aa", "ab", "b", "B", "\u{7f}", "\u{80}", "\u{7ff}", "\u{800}", "\u{ffff}", "\u{10000}"];
    for a in all {
        for b in all {
            assert_eq!(is_str_before(a, b), a < b, "{a:?} {b:?}");
        }
    }
}

#[test]
fn settings_that_leave_nothing_to_serve_are_refused_in_words() {
    for (enabled, builtins, sources, fine) in [
        (true, false, "", false),
        (true, false, " , ", false),
        (true, false, "a", true),
        (true, true, "", true),
        (false, false, "", true),
    ] {
        let c = Config::from_env(Environment {
            enabled: set(if enabled { "true" } else { "false" }),
            builtins: set(if builtins { "true" } else { "false" }),
            sources: set(sources),
            ..nothing_set()
        });
        let refused = "dashboards.enabled is true with no sources and builtins disabled, so no \
                       dashboard could ever be served";
        assert_eq!(c.validate(), if fine { Ok(()) } else { Err(refused.to_string()) });
    }
}

#[test]
fn a_copy_of_the_settings_holds_the_same() {
    let c = Config {
        sources: vec!["a".to_string(), "b".to_string()],
        cluster_label: "label".to_string(),
        ..Config::default()
    };
    assert_eq!(format!("{:?}", c.clone()), format!("{c:?}"));
}
