use optics_bench::configs::{
    entries_from_files, file_name, json_file_stem, key_for, list, location, name_of_key, saved_where,
    strip_key_prefix, Entry,
};
use optics_bench::text::{is_whitespace, str_lt, trim};

fn names<K>(entries: &[Entry<K>]) -> Vec<String> {
    entries.iter().map(|e| e.name.clone()).collect()
}

#[test]
fn file_names_keep_letters_digits_and_some_punctuation() {
    assert_eq!(file_name("PS03 exercise 2"), "PS03 exercise 2.json");
    assert_eq!(file_name("  lens (f = 1 m), v2.1 "), "lens (f _ 1 m), v2.1.json");
    assert_eq!(file_name("a/b:c\\d"), "a_b_c_d.json");
    assert_eq!(file_name("x?*"), "x__.json");
    assert_eq!(file_name("Übung-3_Linse"), "Übung-3_Linse.json");
}

#[test]
fn an_empty_name_is_untitled() {
    assert_eq!(file_name(""), "untitled.json");
    assert_eq!(file_name("   \t\n"), "untitled.json");
}

#[test]
fn trimming_and_ordering() {
    assert_eq!(trim("  a b \n"), "a b");
    assert_eq!(trim(""), "");
    assert_eq!(trim(" \u{a0}x\u{2003}"), "x");
    assert!(str_lt("abc", "abd"));
    assert!(str_lt("ab", "abc"));
    assert!(!str_lt("abc", "abc"));
    assert!(!str_lt("b", "abc"));
    assert!(str_lt("Z", "a"));
}

#[test]
fn trimming_follows_the_unicode_white_space_set() {
    // every White_Space character is trimmed
    let all = "\u{9}\u{a}\u{b}\u{c}\u{d} \u{85}\u{a0}\u{1680}\u{2000}\u{200a}\u{2028}\u{2029}\u{202f}\u{205f}\u{3000}";
    assert_eq!(trim(&format!("{all}y{all}")), "y");
    // the zero-width space and the byte-order mark are not White_Space
    assert_eq!(trim("\u{200b}z\u{feff}"), "\u{200b}z\u{feff}");
    assert_eq!(trim("\u{1}z"), "\u{1}z");
}

#[test]
fn whitespace_agrees_with_std_on_every_char() {
    for u in 0..=0x10FFFFu32 {
        if let Some(c) = char::from_u32(u) {
            assert_eq!(is_whitespace(c), c.is_whitespace(), "U+{u:04X}");
        }
    }
}

#[test]
fn browser_keys() {
    assert_eq!(key_for("  PS03 "), "optics_bench/config/PS03");
    assert_eq!(key_for("a b"), "optics_bench/config/a b");
    assert_eq!(strip_key_prefix("optics_bench/config/abc"), Some("abc".to_string()));
    assert_eq!(strip_key_prefix("optics_bench/config/"), Some(String::new()));
    assert_eq!(strip_key_prefix("optics_bench/state"), None);
    assert_eq!(strip_key_prefix("optics_bench/conf"), None);
    assert_eq!(strip_key_prefix(""), None);
    assert_eq!(name_of_key("optics_bench/config/Talbot"), "Talbot");
    assert_eq!(name_of_key("something else"), "something else");
    assert_eq!(location(), "Saved in this browser only. Use Download to keep a copy or to share it.");
    assert_eq!(saved_where("optics_bench/config/x"), "in this browser");
}

#[test]
fn a_config_saved_in_the_browser_is_listed_under_its_trimmed_name() {
    for name in ["zz test config", "  spaced  ", "Übung"] {
        let key = key_for(name);
        let entries = list(vec![key.clone()]);
        assert_eq!(entries.len(), 1);
        assert_eq!(entries[0].name, name.trim());
        assert_eq!(entries[0].key, key);
    }
}

#[test]
fn browser_list_keeps_configs_sorted_by_name() {
    let keys: Vec<String> = [
        "optics_bench/state",
        "optics_bench/config/beta",
        "optics_bench/config/Alpha",
        "egui_memory_ron",
        "optics_bench/config/alpha",
        "optics_bench/config/Gamma",
    ]
    .iter()
    .map(|s| s.to_string())
    .collect();
    let entries = list(keys);
    assert_eq!(names(&entries), vec!["Alpha", "alpha", "beta", "Gamma"]);
    assert_eq!(entries[0].key, "optics_bench/config/Alpha");
    assert_eq!(entries[1].key, "optics_bench/config/alpha");
    assert_eq!(entries[3].key, "optics_bench/config/Gamma");
}

#[test]
fn an_empty_storage_lists_nothing() {
    assert!(list(vec![]).is_empty());
    assert!(list(vec!["unrelated".to_string()]).is_empty());
}

#[test]
fn json_stems() {
    assert_eq!(json_file_stem("a.json"), Some("a".to_string()));
    assert_eq!(json_file_stem("x.tar.json"), Some("x.tar".to_string()));
    assert_eq!(json_file_stem(".json"), None);
    assert_eq!(json_file_stem("a.JSON"), None);
    assert_eq!(json_file_stem("json"), None);
    assert_eq!(json_file_stem("a.json.bak"), None);
}

#[test]
fn folder_listing_keeps_json_files_sorted_by_name() {
    let files = vec![
        ("b.json".to_string(), 1),
        ("notes.txt".to_string(), 2),
        ("A.json".to_string(), 3),
        (".json".to_string(), 4),
        ("c.tar.json".to_string(), 5),
        ("a.JSON".to_string(), 6),
        ("a.json".to_string(), 7),
    ];
    let entries = entries_from_files(files);
    assert_eq!(names(&entries), vec!["A", "a", "b", "c.tar"]);
    let keys: Vec<i32> = entries.iter().map(|e| e.key).collect();
    assert_eq!(keys, vec![3, 7, 1, 5]);
}

#[test]
fn every_saved_file_is_listed() {
    for name in ["zz test config", "  ", "a/b", "Kepler (f = 2 m)"] {
        let f = file_name(name);
        let entries = entries_from_files(vec![(f.clone(), ())]);
        assert_eq!(entries.len(), 1, "{f}");
        assert_eq!(format!("{}.json", entries[0].name), f);
    }
    let entries = entries_from_files(vec![(file_name("PS03 exercise 2"), ())]);
    assert_eq!(entries[0].name, "PS03 exercise 2");
}

#[test]
fn file_names_keep_ascii_letters_and_digits_and_replace_separators() {
    assert_eq!(file_name("a"), "a.json");
    assert_eq!(file_name("Az09"), "Az09.json");
    assert_eq!(file_name("..\\..\\x:y/z"), ".._.._x_y_z.json");
    assert_eq!(file_name("a~b!c"), "a_b_c.json");
}
