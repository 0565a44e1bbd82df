use suno_core::profiles::{
    browser_patterns, chromium_key_path, cookie_patterns, distinct_files, expand_home,
    expand_percent, newest_first, percent_names, profile_label, DbPlace, FoundPath,
    CHROMIUM_BROWSERS, KEY_CANDIDATES, NO_KEY_FILE,
};

fn strings(items: &[&str]) -> Vec<String> {
    items.iter().map(|s| s.to_string()).collect()
}

#[test]
fn patterns_are_filled_with_every_channel() {
    assert_eq!(
        cookie_patterns(
            &strings(&["~/a{channel}/x", "~/b", "{channel}{channel}"]),
            Some(strings(&["", "-beta"]))
        ),
        strings(&["~/a/x", "~/a-beta/x", "~/b", "~/b", "", "-beta-beta"])
    );
    assert_eq!(
        cookie_patterns(&strings(&["~/a{channel}/x"]), None),
        strings(&["~/a/x"])
    );
    assert_eq!(cookie_patterns(&strings(&["a"]), Some(vec![])), strings(&[]));
}

#[test]
fn every_browser_has_patterns() {
    for (key, _name) in CHROMIUM_BROWSERS {
        let config = rookie::config::get_browser_config(key);
        let patterns = browser_patterns(key);
        let channels = config.channels.as_ref().map_or(1, |c| c.len());
        assert_eq!(patterns.len(), config.paths.len() * channels);
        assert_eq!(patterns, cookie_patterns(&config.paths, config.channels.clone()));
        assert!(patterns.iter().all(|p| !p.contains("{channel}")));
        assert!(patterns.iter().all(|p| p.ends_with("/Cookies")));
    }
    assert_eq!(CHROMIUM_BROWSERS[0], ("chrome", "Chrome"));
    assert_eq!(CHROMIUM_BROWSERS[6], ("opera", "Opera"));
}

#[test]
fn home_is_filled_in() {
    assert_eq!(expand_home("~/x", Some("/home/u")), "/home/u/x");
    assert_eq!(expand_home("$HOME/x/~", Some("/h")), "/h/x//h");
    assert_eq!(expand_home("$HOME/x", Some("/~")), "//~/x");
    assert_eq!(expand_home("~/$HOME", None), "~/$HOME");
}

#[test]
fn names_between_percent_signs() {
    assert_eq!(percent_names("%A%/x/%B C%"), strings(&["A", "B C"]));
    assert_eq!(percent_names("a%b"), strings(&[]));
    assert_eq!(percent_names("%%%"), strings(&[""]));
    assert_eq!(percent_names(""), strings(&[]));
}

#[test]
fn percent_signs_are_expanded() {
    assert_eq!(
        expand_percent(
            "%LOCALAPPDATA%/x/%NOPE%/y",
            &vec![Some("C:/u".to_string()), None]
        ),
        "C:/u/x/%NOPE%/y"
    );
    assert_eq!(expand_percent("50% off", &vec![]), "50% off");
    assert_eq!(expand_percent("%A%%", &vec![Some("v%w".to_string())]), "v%w%");
}

#[test]
fn looked_up_values_expand_a_pattern() {
    let pattern = "%A%/%B%/%A%";
    let set = [("A", "x"), ("C", "y")];
    let values: Vec<Option<String>> = percent_names(pattern)
        .iter()
        .map(|n| set.iter().find(|(k, _)| k == n).map(|(_, v)| v.to_string()))
        .collect();
    assert_eq!(expand_percent(pattern, &values), "x/%B%/x");
}

#[test]
fn unset_names_are_left_alone() {
    assert_eq!(expand_percent("a%B%c%D%e%", &vec![None, None]), "a%B%c%D%e%");
}

fn place(parent: Option<&str>, grandparent: Option<&str>, shown: &str) -> DbPlace {
    DbPlace {
        parent: parent.map(String::from),
        grandparent: grandparent.map(String::from),
        shown: shown.to_string(),
    }
}

#[test]
fn profile_is_named_after_its_directory() {
    assert_eq!(
        profile_label(&place(Some("Profile 7"), Some("Chrome"), "/c/Profile 7/Cookies")),
        "Profile 7"
    );
    assert_eq!(
        profile_label(&place(Some("Network"), Some("Profile 7"), "/p")),
        "Profile 7"
    );
    assert_eq!(profile_label(&place(Some("Network"), None, "/Network/Cookies")), "/Network/Cookies");
    assert_eq!(profile_label(&place(None, None, "/Cookies")), "/Cookies");
}

fn found(path: &[&str], is_file: bool) -> FoundPath {
    FoundPath {
        components: path.iter().map(|c| c.as_bytes().to_vec()).collect(),
        is_file,
    }
}

#[test]
fn databases_are_files_and_distinct() {
    let all = vec![
        found(&["a", "b"], true),
        found(&["a"], false),
        found(&["a", "b"], true),
        found(&["a", "c"], true),
        found(&["a", "bb"], true),
        found(&["a"], true),
    ];
    assert_eq!(distinct_files(&all), vec![0, 3, 4, 5]);
    assert_eq!(distinct_files(&vec![]), Vec::<usize>::new());
}

#[test]
fn newest_database_goes_first() {
    assert_eq!(newest_first(&vec![5, 9, -1, 9, 0]), vec![1, 3, 0, 4, 2]);
    assert_eq!(newest_first(&vec![]), Vec::<usize>::new());
    assert_eq!(newest_first(&vec![1, 1, 1]), vec![0, 1, 2]);
}

#[test]
fn key_file_is_the_first_that_exists() {
    assert_eq!(chromium_key_path([true, true, true]), Some("../../Local State"));
    assert_eq!(chromium_key_path([false, true, true]), Some("../Local State"));
    assert_eq!(chromium_key_path([false, false, true]), Some("Local State"));
    assert_eq!(chromium_key_path([false, false, false]), None);
    assert_eq!(KEY_CANDIDATES[2], "Local State");
    assert_eq!(NO_KEY_FILE, "no Local State file beside the cookie database");
}
