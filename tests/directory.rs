use yml_path::directory::{keep_last, site_directory_name, truncate};

#[test]
fn truncate_keeps_the_last_components() {
    assert_eq!(truncate("home/user/documents/report/file.txt", 3), Some("documents/report/file.txt".to_string()));
    assert_eq!(truncate("a/b/c", 1), Some("c".to_string()));
}

#[test]
fn truncate_zero_length_is_none() {
    assert_eq!(truncate("a/b/c", 0), None);
}

#[test]
fn truncate_too_few_components_is_none() {
    assert_eq!(truncate("a/b", 3), None);
    assert_eq!(truncate("", 1), None);
}

#[test]
fn truncate_exact_length_gives_the_whole_path() {
    assert_eq!(truncate("a/b/c", 3), Some("a/b/c".to_string()));
}

#[test]
fn truncate_normalises_separators() {
    assert_eq!(truncate("a//b/./c/", 2), Some("b/c".to_string()));
}

#[test]
fn truncate_absolute_path_keeps_its_root() {
    assert_eq!(truncate("/usr/lib", 3), Some("/usr/lib".to_string()));
    assert_eq!(truncate("/usr/lib", 2), Some("usr/lib".to_string()));
}

#[test]
fn keep_last_selects_in_order() {
    let parts = vec!["a".to_string(), "b".to_string(), "c".to_string()];
    assert_eq!(keep_last(&parts, 2), Some(vec!["b".to_string(), "c".to_string()]));
    assert_eq!(keep_last(&parts, 3), Some(parts.clone()));
    assert_eq!(keep_last(&parts, 4), None);
    assert_eq!(keep_last(&parts, 0), None);
}

#[test]
fn site_directory_name_replaces_spaces() {
    assert_eq!(site_directory_name("My Web  Site"), "My_Web__Site");
    assert_eq!(site_directory_name("plain"), "plain");
    assert_eq!(site_directory_name(""), "");
}
