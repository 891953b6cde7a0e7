use sin::error::Error;
use sin::maildir::{components_to_str, Builder, Maildir};

#[test]
fn inbox() {
    let maildir = Builder::new("/tmp/mail").maildir("INBOX", &None);
    assert_eq!("/tmp/mail", maildir.path());
    assert_eq!(true, maildir.root());
}

#[test]
fn no_separator() {
    let maildir = Builder::new("/tmp/mail").maildir("folder", &None);
    assert_eq!("/tmp/mail/.folder", maildir.path());
    assert_eq!(false, maildir.root());
}

#[test]
fn separator() {
    let builder = Builder::new("/tmp/mail");
    for separator in &['.', '/'] {
        let maildir = builder.maildir("folder", &Some(*separator));
        assert_eq!("/tmp/mail/.folder", maildir.path());
        assert_eq!(false, maildir.root());

        let maildir = builder.maildir(&format!("folder{separator}subfolder"), &Some(*separator));
        assert_eq!("/tmp/mail/.folder.subfolder", maildir.path());
        assert_eq!(false, maildir.root());
    }
}

#[test]
fn components() {
    let found = sin::maildir::components("/maildir/cur/test").unwrap();
    assert_eq!(
        [
            "/maildir".to_string(),
            "/maildir/cur".to_string(),
            "/maildir/cur/test".to_string()
        ],
        found
    );
    assert_eq!(
        ["maildir".to_string(), "cur".to_string(), "test".to_string()],
        components_to_str(&found).unwrap()
    );

    let found = sin::maildir::components("/maildir/.folder/new/test").unwrap();
    assert_eq!(
        [
            "/maildir/.folder".to_string(),
            "/maildir/.folder/new".to_string(),
            "/maildir/.folder/new/test".to_string(),
        ],
        found
    );
    assert_eq!(
        [".folder".to_string(), "new".to_string(), "test".to_string()],
        components_to_str(&found).unwrap()
    );
}

#[test]
fn components_without_a_grandparent() {
    assert_eq!(Err(Error::InvalidPath), sin::maildir::components("test"));
    assert_eq!(Err(Error::InvalidPath), sin::maildir::components("/"));
}

#[test]
fn has_looks_at_the_parent() {
    let maildir = Maildir::new("/maildir/.folder", false);
    assert!(maildir.has("/maildir/.folder/cur/a"));
    assert!(maildir.has("/maildir/.folder/new/a"));
    assert!(maildir.has("/maildir/.folder/tmp/a"));
    assert!(!maildir.has("/maildir/.folder/a"));
    assert!(!maildir.has("/maildir/cur/a"));
    assert!(!maildir.has("/"));
}

#[test]
fn tmp_named_with_size_wants_the_whole_file() {
    let maildir = Maildir::new("/maildir", true);
    assert_eq!("/maildir/tmp/sin_1_2", maildir.tmp_named("sin_1_2"));
    assert_eq!(
        Some("/maildir/tmp/sin_1_2".to_string()),
        maildir.tmp_named_with_size("sin_1_2", 10, Some(10))
    );
    assert_eq!(None, maildir.tmp_named_with_size("sin_1_2", 10, Some(9)));
    assert_eq!(None, maildir.tmp_named_with_size("sin_1_2", 10, None));
}

#[test]
fn tmp_names_differ() {
    let maildir = Maildir::new("/maildir", true);
    let first = maildir.tmp();
    let second = maildir.tmp();
    assert!(first.starts_with("/maildir/tmp/"));
    assert_ne!(first, second);
}

#[test]
fn tmp_names_are_identifiers_without_flags() {
    let maildir = Maildir::new("/maildir", true);
    for _ in 0..16 {
        let path = maildir.tmp();
        let name = path.strip_prefix("/maildir/tmp/").unwrap();
        assert_eq!(36, name.len());
        assert!(!name.contains(':'));
        assert!(!name.contains('/'));
        assert!(name.chars().enumerate().all(|(at, c)| match at {
            8 | 13 | 18 | 23 => c == '-',
            _ => c.is_ascii_digit() || ('a'..='f').contains(&c),
        }));
        assert!(maildir.has(&path));
    }
}
