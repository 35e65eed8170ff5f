use tedge_write::errors::WriteError;
use tedge_write::paths::validate;

#[test]
fn accepts_root() {
    let r = validate("/").unwrap();
    assert_eq!(r.as_str(), "/");
}

#[test]
fn accepts_canonical_path() {
    let r = validate("/etc/conf.d/app.conf").unwrap();
    assert_eq!(r.as_str(), "/etc/conf.d/app.conf");
}

#[test]
fn accepts_hidden_and_dotted_names() {
    assert_eq!(validate("/a/.hidden").unwrap().as_str(), "/a/.hidden");
    assert_eq!(validate("/a/b.c.d").unwrap().as_str(), "/a/b.c.d");
    assert_eq!(validate("/a/...").unwrap().as_str(), "/a/...");
    assert_eq!(validate("/a/..b").unwrap().as_str(), "/a/..b");
}

#[test]
fn rejects_relative_path() {
    assert_eq!(validate("a/b").unwrap_err(), WriteError::NotAbsolute);
    assert_eq!(validate("./a").unwrap_err(), WriteError::NotAbsolute);
    assert_eq!(validate("../a").unwrap_err(), WriteError::NotAbsolute);
}

#[test]
fn rejects_empty_path() {
    assert_eq!(validate("").unwrap_err(), WriteError::NotAbsolute);
}

#[test]
fn rejects_parent_dir_elements() {
    assert_eq!(validate("/a/../b").unwrap_err(), WriteError::NotCanonical);
    assert_eq!(validate("/..").unwrap_err(), WriteError::NotCanonical);
    assert_eq!(validate("/etc/foo/../bar").unwrap_err(), WriteError::NotCanonical);
}

#[test]
fn rejects_current_dir_elements() {
    assert_eq!(validate("/a/./b").unwrap_err(), WriteError::NotCanonical);
    assert_eq!(validate("/.").unwrap_err(), WriteError::NotCanonical);
}

#[test]
fn rejects_doubled_separators() {
    assert_eq!(validate("/a//b").unwrap_err(), WriteError::NotCanonical);
    assert_eq!(validate("//").unwrap_err(), WriteError::NotCanonical);
    assert_eq!(validate("//a").unwrap_err(), WriteError::NotCanonical);
}

#[test]
fn rejects_trailing_separator() {
    assert_eq!(validate("/a/").unwrap_err(), WriteError::NotCanonical);
}
