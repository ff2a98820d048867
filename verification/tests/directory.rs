use silent_crawler::directory::{directory_of_path, extract_directory};

#[test]
fn a_file_lies_in_the_directory_before_its_name() {
    assert_eq!(directory_of_path("/a/b/c.html"), Some("/a/b/".to_string()));
    assert_eq!(directory_of_path("/a/b"), Some("/a/".to_string()));
}

#[test]
fn a_path_that_ends_in_a_slash_is_its_own_directory() {
    assert_eq!(directory_of_path("/a/b/"), Some("/a/b/".to_string()));
    assert_eq!(directory_of_path("/a/"), Some("/a/".to_string()));
    assert_eq!(directory_of_path("//"), Some("//".to_string()));
    assert_eq!(directory_of_path("a/"), Some("a/".to_string()));
}

#[test]
fn the_root_and_the_empty_path_have_no_directory() {
    assert_eq!(directory_of_path("/"), None);
    assert_eq!(directory_of_path(""), None);
}

#[test]
fn a_file_under_the_root_has_no_directory() {
    assert_eq!(directory_of_path("/about.html"), None);
    assert_eq!(directory_of_path("/x"), None);
    assert_eq!(directory_of_path("no-slash"), None);
}

#[test]
fn a_path_without_a_leading_slash_is_cut_after_its_last_slash() {
    assert_eq!(directory_of_path("text/plain,x"), Some("text/".to_string()));
}

#[test]
fn the_directory_of_a_url_is_that_of_its_path() {
    assert_eq!(extract_directory("http://example.com/a/b/c.html?x=1#y"), Some("/a/b/".to_string()));
    assert_eq!(extract_directory("http://example.com/a/b/"), Some("/a/b/".to_string()));
    assert_eq!(extract_directory("http://blog.example.com/post/"), Some("/post/".to_string()));
    assert_eq!(extract_directory("http://example.com"), None);
    assert_eq!(extract_directory("http://example.com/"), None);
    assert_eq!(extract_directory("http://example.com/about.html"), None);
    assert_eq!(extract_directory("http://example.com/a/../b/c"), Some("/b/".to_string()));
}

#[test]
fn a_url_that_does_not_parse_has_no_directory() {
    assert_eq!(extract_directory("/a/b/c.html"), None);
    assert_eq!(extract_directory(""), None);
}
