use commit_analysis::{
    extract_component_name_from_filename, extract_language_from_filename,
    extract_pr_from_commit_message, is_component_file, is_interesting_language, is_pr_summary,
    count_by, CountBy,
};

#[test]
fn lib_test_extract_component_name_from_diff_summary() {
    let r = extract_component_name_from_filename(&"component-a/src/test/java/Thing.java".to_owned());
    assert!(r.is_some());
    assert_eq!(r.unwrap(), "component-a");
}

#[test]
fn lib_test_extract_language_from_diff_summary() {
    let r = extract_language_from_filename(&"component-a/src/test/java/Thing.java".to_owned());
    assert!(r.is_some());
    assert_eq!(r.unwrap(), "java");
}

#[test]
fn test_count_by_key() {
    let items = vec!["a", "a", "b", "c", "c", "d"];
    let m = items.count_by_key(|i| i.to_string());
    let count = m.iter().find(|e| e.0 == "a").unwrap().1;
    assert_eq!(count, 2);
}

#[test]
fn count_by_key_counts_every_key_once() {
    let items = vec!["a", "a", "b", "c", "c", "d"];
    let m = items.count_by_key(|i| i.to_string());
    assert_eq!(m.len(), 4);
    let get = |k: &str| m.iter().find(|e| e.0 == k).map(|e| e.1);
    assert_eq!(get("b"), Some(1));
    assert_eq!(get("c"), Some(2));
    assert_eq!(get("d"), Some(1));
    assert_eq!(get("e"), None);
}

#[test]
fn count_by_key_on_empty_list() {
    let items: Vec<&str> = vec![];
    assert!(items.count_by_key(|i| i.to_string()).is_empty());
}

#[test]
fn count_by_counts_pair_keys() {
    let pairs = vec![
        ("x".to_string(), 1),
        ("y".to_string(), 2),
        ("x".to_string(), 3),
        ("x".to_string(), 4),
    ];
    let m = count_by(&pairs);
    assert_eq!(m, vec![("x".to_string(), 3), ("y".to_string(), 1)]);
}

#[test]
fn component_is_text_before_first_slash() {
    let r = extract_component_name_from_filename("compA//src///Foo.java");
    assert_eq!(r.as_deref(), Some("compA"));
    let r = extract_component_name_from_filename("compA/");
    assert_eq!(r.as_deref(), Some("compA"));
}

#[test]
fn component_absent_without_slash() {
    assert_eq!(extract_component_name_from_filename("README.md"), None);
    assert_eq!(extract_component_name_from_filename(""), None);
}

#[test]
fn component_absent_under_legacy_prefix() {
    assert_eq!(extract_component_name_from_filename("master/src/Foo.java"), None);
    assert_eq!(extract_component_name_from_filename("mastery/src/Foo.java"), None);
    assert_eq!(
        extract_component_name_from_filename("mastr/src/Foo.java").as_deref(),
        Some("mastr")
    );
}

#[test]
fn counted_paths_need_slash_and_no_legacy_prefix() {
    assert!(is_component_file("compA/Foo.java"));
    assert!(!is_component_file("Foo.java"));
    assert!(!is_component_file("master"));
    assert!(!is_component_file("master/Foo.java"));
}

#[test]
fn language_is_last_extension() {
    assert_eq!(extract_language_from_filename("a/b/archive.tar.gz").as_deref(), Some("gz"));
    assert_eq!(extract_language_from_filename("a/b/c.yml").as_deref(), Some("yml"));
}

#[test]
fn language_absent_when_slash_follows_last_dot() {
    assert_eq!(extract_language_from_filename("a.b/c/Makefile"), None);
    assert_eq!(extract_language_from_filename("src/Makefile"), None);
}

#[test]
fn language_of_path_without_dot_or_slash_is_whole_path() {
    assert_eq!(extract_language_from_filename("Makefile").as_deref(), Some("Makefile"));
    assert_eq!(extract_language_from_filename("a/b.").as_deref(), Some(""));
}

#[test]
fn interesting_languages_are_the_allow_list() {
    for l in [
        "java", "js", "css", "clj", "scala", "kt", "groovy", "j2", "properties", "sh", "xsd",
        "xml", "yaml", "yml", "py",
    ] {
        assert!(is_interesting_language(l), "{}", l);
    }
    for l in ["rs", "lock", "", "Java", "jav", "javas", "md"] {
        assert!(!is_interesting_language(l), "{}", l);
    }
}

#[test]
fn pr_marker_detection() {
    assert!(is_pr_summary("fix (#42)"));
    assert!(is_pr_summary("(#"));
    assert!(!is_pr_summary("init"));
    assert!(!is_pr_summary("# ("));
    assert!(!is_pr_summary(""));
}

#[test]
fn main_test_extract_pr_from_commit_message() {
    let message = "VGR-8087 - Adding tests for verifying required products service is decremented (#4729)";
    let pr_number = extract_pr_from_commit_message(message);
    assert_eq!("4729", pr_number.unwrap());
}

#[test]
fn tests_test_extract_pr_from_commit_message() {
    let message = "VGR-8087 - Adding tests for verifying required products service is decremented (#4729)";
    let pr_number = extract_pr_from_commit_message(message);
    assert_eq!("4729", pr_number.unwrap());
}

#[test]
fn pr_number_needs_digits_and_closing_paren() {
    assert_eq!(extract_pr_from_commit_message("fix (#) typo"), None);
    assert_eq!(extract_pr_from_commit_message("fix (#12"), None);
    assert_eq!(extract_pr_from_commit_message("plain"), None);
    assert_eq!(extract_pr_from_commit_message("a (#7) b (#8)").as_deref(), Some("7"));
}
